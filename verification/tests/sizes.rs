use dev_space_cleaner::size::{parse_human_size, plain_size, size_token, unit_attempts};

fn scale(number: &str, multiplier: u64) -> Option<u64> {
    number.parse::<f64>().ok().map(|v| (v * multiplier as f64) as u64)
}

#[test]
fn human_sizes_with_units() {
    assert_eq!(parse_human_size("1.5GB", &scale), 1_610_612_736);
    assert_eq!(parse_human_size("512MB", &scale), 512 * 1024 * 1024);
    assert_eq!(parse_human_size("2TB", &scale), 2 * 1024u64.pow(4));
    assert_eq!(parse_human_size("10KB", &scale), 10_240);
    assert_eq!(parse_human_size("10B", &scale), 10);
    assert_eq!(parse_human_size("5kb", &scale), 5_120);
    assert_eq!(parse_human_size("1e3KB", &scale), 1_024_000);
}

#[test]
fn human_sizes_docker_report_forms() {
    assert_eq!(parse_human_size("1.2GB (50%)", &scale), (1.2f64 * 1073741824.0) as u64);
    assert_eq!(parse_human_size("  0B ", &scale), 0);
    assert_eq!(parse_human_size("12,345", &scale), 12_345);
    assert_eq!(parse_human_size("1,024KB", &scale), 1_048_576);
}

#[test]
fn human_sizes_that_read_as_zero() {
    assert_eq!(parse_human_size("", &scale), 0);
    assert_eq!(parse_human_size("   ", &scale), 0);
    assert_eq!(parse_human_size("abc", &scale), 0);
    assert_eq!(parse_human_size("KB", &scale), 0);
    assert_eq!(parse_human_size("-5MB", &scale), 0);
}

#[test]
fn repeated_unit_letters_are_all_removed() {
    assert_eq!(parse_human_size("5BB", &scale), 5);
}

#[test]
fn first_unit_that_scales_wins() {
    // "5GB" ends with both GB and B; GB is tried first.
    assert_eq!(parse_human_size("5GB", &scale), 5 * 1024 * 1024 * 1024);
    // When no unit reading scales, the plain reading is used.
    assert_eq!(parse_human_size("77", &|_: &str, _: u64| None), 77);
    assert_eq!(parse_human_size("77B", &|_: &str, _: u64| None), 0);
}

#[test]
fn size_token_is_first_word_without_commas_upper_cased() {
    assert_eq!(size_token("  1,024kB extra"), "1024KB");
    assert_eq!(size_token("  1,024 kB extra"), "1024");
    assert_eq!(size_token(""), "");
    assert_eq!(size_token("\t3.5mb"), "3.5MB");
}

#[test]
fn unit_attempts_in_order() {
    let a = unit_attempts("5GB");
    let got: Vec<(String, u64)> = a.into_iter().map(|x| (x.number, x.multiplier)).collect();
    assert_eq!(got, vec![("5".to_string(), 1 << 30), ("5G".to_string(), 1)]);
    assert!(unit_attempts("42").is_empty());
    let b = unit_attempts("1TB");
    assert_eq!(b[0].multiplier, 1u64 << 40);
    assert_eq!(b[0].number, "1");
}

#[test]
fn plain_sizes() {
    assert_eq!(plain_size("42"), 42);
    assert_eq!(plain_size("4.2"), 0);
    assert_eq!(plain_size(""), 0);
    assert_eq!(plain_size("18446744073709551615"), u64::MAX);
}

#[test]
fn decimal_text_reads_as_its_value() {
    for n in [0u64, 7, 10, 512, 1_000_000, u64::MAX] {
        assert_eq!(parse_human_size(&n.to_string(), &scale), n);
        assert_eq!(parse_human_size(&n.to_string(), &|_: &str, _: u64| None), n);
    }
}

#[test]
fn number_with_unit_reads_as_product() {
    let units = [("B", 1u64), ("KB", 1024), ("MB", 1024 * 1024), ("GB", 1024 * 1024 * 1024), ("TB", 1024u64.pow(4))];
    for n in [0u64, 1, 3, 1000, 4096] {
        for (unit, m) in units {
            assert_eq!(parse_human_size(&format!("{}{}", n, unit), &scale), n * m, "{n}{unit}");
        }
    }
}
