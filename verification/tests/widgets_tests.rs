use rproc::attribution::{format_value, Kind};
use rproc::settings::format_ms;
use rproc::widgets::{
    format_bytes, format_duration, format_time_ago, plot_x_for_sample, sample_for_plot_x,
    HISTORY_LEN,
};

#[test]
fn format_bytes_picks_right_unit() {
    assert_eq!(format_bytes(0), "0 B");
    assert_eq!(format_bytes(512), "512 B");
    assert_eq!(format_bytes(1024), "1 KB");
    assert_eq!(format_bytes(1_048_576), "1.0 MB");
    assert_eq!(format_bytes(1_073_741_824), "1.0 GB");
    assert_eq!(format_bytes(1_099_511_627_776), "1.0 TB");
}

#[test]
fn format_bytes_boundary_just_below_kb_stays_in_bytes() {
    assert_eq!(format_bytes(1023), "1023 B");
}

#[test]
fn format_duration_picks_the_largest_unit_present() {
    assert_eq!(format_duration(0), "0s");
    assert_eq!(format_duration(45), "45s");
    assert_eq!(format_duration(60), "1m 0s");
    assert_eq!(format_duration(125), "2m 5s");
    assert_eq!(format_duration(3600), "1h 0m 0s");
    assert_eq!(format_duration(3725), "1h 2m 5s");
    assert_eq!(format_duration(86_400), "1d 0h 0m");
    assert_eq!(format_duration(90_061), "1d 1h 1m");
}

fn float_bytes(b: u64) -> String {
    // The unit choice and rounding the display code makes with `f64`.
    let v = b as f64;
    if v >= 1_099_511_627_776.0 {
        format!("{:.1} TB", v / 1_099_511_627_776.0)
    } else if v >= 1_073_741_824.0 {
        format!("{:.1} GB", v / 1_073_741_824.0)
    } else if v >= 1_048_576.0 {
        format!("{:.1} MB", v / 1_048_576.0)
    } else if v >= 1024.0 {
        format!("{:.0} KB", v / 1024.0)
    } else {
        format!("{b} B")
    }
}

#[test]
fn format_bytes_matches_float_formatting() {
    let samples: [u64; 16] = [
        1,
        1535,
        1536,
        2560,
        1_572_864,
        1_153_433,
        5_000_000_000,
        123_456_789_012,
        1_099_511_627_775,
        u64::MAX,
        9_007_199_254_740_993,
        3 * 1_073_741_824 / 2,
        104_857,
        1_048_575,
        1_126_170_624_000,
        42,
    ];
    for b in samples {
        assert_eq!(format_bytes(b), float_bytes(b), "b={b}");
    }
    let mut x: u64 = 0x9E37_79B9_7F4A_7C15;
    for _ in 0..2000 {
        x ^= x << 13;
        x ^= x >> 7;
        x ^= x << 17;
        let b = x >> (x % 64);
        assert_eq!(format_bytes(b), float_bytes(b), "b={b}");
    }
}

#[test]
fn format_time_ago_units() {
    assert_eq!(format_time_ago(0, 1000), "now");
    assert_eq!(format_time_ago(-3, 1000), "now");
    assert_eq!(format_time_ago(1, 500), "-500 ms");
    assert_eq!(format_time_ago(3, 500), "-1.5 s");
    assert_eq!(format_time_ago(3, 1000), "-3 s");
    assert_eq!(format_time_ago(1, 0), "-1 ms");
    assert_eq!(format_time_ago(61, 1000), "-1m 01s");
    assert_eq!(format_time_ago(125, 1000), "-2m 05s");
}

#[test]
fn format_time_ago_matches_float_formatting() {
    for interval in [1u64, 3, 7, 100, 250, 333, 999] {
        for n in 1i64..400 {
            let ms = n * interval as i64;
            if ms >= 1000 && ms < 60_000 {
                let expected = format!("-{:.1} s", ms as f64 / 1000.0);
                assert_eq!(format_time_ago(n, interval), expected, "n={n} iv={interval}");
            }
        }
    }
}

#[test]
fn plot_x_anchors_newest_at_right_when_full() {
    assert_eq!(plot_x_for_sample(0, HISTORY_LEN), 0);
    assert_eq!(plot_x_for_sample(HISTORY_LEN - 1, HISTORY_LEN), HISTORY_LEN - 1);
}

#[test]
fn plot_x_anchors_newest_at_right_when_partial() {
    let n = 30;
    assert_eq!(plot_x_for_sample(0, n), HISTORY_LEN - n);
    assert_eq!(plot_x_for_sample(n - 1, n), HISTORY_LEN - 1);
}

#[test]
fn sample_for_plot_x_inverse_of_plot_x_for_sample() {
    for n in [1, 15, 30, HISTORY_LEN] {
        for i in 0..n {
            let x = plot_x_for_sample(i, n);
            assert_eq!(sample_for_plot_x(x as i64, n), Some(i), "n={n} i={i}");
        }
    }
}

#[test]
fn sample_for_plot_x_returns_none_outside_data() {
    assert_eq!(sample_for_plot_x(0, 10), None);
    assert_eq!(sample_for_plot_x(HISTORY_LEN as i64, HISTORY_LEN), None);
    assert_eq!(sample_for_plot_x(5, 0), None);
}

#[test]
fn format_ms_words_the_interval() {
    assert_eq!(format_ms(250), "250 ms");
    assert_eq!(format_ms(1000), "1 s");
    assert_eq!(format_ms(5000), "5 s");
    assert_eq!(format_ms(1500), "1.5 s");
    assert_eq!(format_ms(1250), "1.2 s");
    for ms in [1001u64, 1049, 1050, 1051, 2250, 2350, 12345, 999_999, u64::MAX, 9_007_199_254_740_993] {
        if ms % 1000 != 0 {
            assert_eq!(format_ms(ms), format!("{:.1} s", ms as f64 / 1000.0), "ms={ms}");
        }
    }
}

#[test]
fn format_value_per_kind() {
    assert_eq!(format_value(Kind::Cpu, 0, "12%", "x", "y"), "12%");
    assert_eq!(format_value(Kind::Gpu, 0, "3.5%", "x", "y"), "3.5%");
    assert_eq!(format_value(Kind::Ram, 1_048_576, "4.0%", "x", "y"), "1.0 MB (4.0%)");
    assert_eq!(format_value(Kind::Disk, 0, "p", "3 KB/s", "y"), "3 KB/s");
    assert_eq!(format_value(Kind::Battery, 0, "p", "b", "1.25"), "~1.25 W");
}
