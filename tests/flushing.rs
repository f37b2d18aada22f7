use dataset_writer::config::PlainZstTableWriterConfig;
use dataset_writer::flush_policy::{
    default_autoflush_row_group_len, AutoFlush, ParquetTableWriterConfig, RolloverState,
    PARQUET_MAX_ROW_GROUPS,
};
use dataset_writer::path::{table_path, DatasetPath};

fn path(names: &[&str]) -> DatasetPath {
    DatasetPath { absolute: false, components: names.iter().map(|s| s.to_string()).collect() }
}

#[test]
fn default_configs() {
    let c = ParquetTableWriterConfig::default();
    assert_eq!(c.autoflush_row_group_len, None);
    assert_eq!(c.autoflush_buffer_size, None);
    let z = PlainZstTableWriterConfig::default();
    assert_eq!(z.extension, "zst");
    assert_eq!(z.compression_level, 3);
    let z2 = z.clone();
    assert_eq!(z2.extension, "zst");
}

#[test]
fn default_row_group_len_is_ninety_percent() {
    assert_eq!(default_autoflush_row_group_len(1024 * 1024), 943718);
    assert_eq!(default_autoflush_row_group_len(100), 90);
    assert_eq!(default_autoflush_row_group_len(15), 13);
    assert_eq!(default_autoflush_row_group_len(0), 0);
    assert_eq!(default_autoflush_row_group_len(usize::MAX), ((usize::MAX as u128) * 9 / 10) as usize);
}

#[test]
fn thresholds_from_config() {
    let c = ParquetTableWriterConfig { autoflush_row_group_len: None, autoflush_buffer_size: Some(4096) };
    let af = AutoFlush::from_config(&c, 1000);
    assert_eq!(af, AutoFlush { row_group_len: 900, buffer_size: Some(4096) });
    let c = ParquetTableWriterConfig { autoflush_row_group_len: Some(256), autoflush_buffer_size: None };
    let af = AutoFlush::from_config(&c, 1000);
    assert_eq!(af, AutoFlush { row_group_len: 256, buffer_size: None });
}

#[test]
fn flush_on_either_threshold() {
    let af = AutoFlush { row_group_len: 10, buffer_size: Some(100) };
    assert!(!af.should_flush(9, 99));
    assert!(af.should_flush(10, 0));
    assert!(af.should_flush(0, 100));
    let rows_only = AutoFlush { row_group_len: 10, buffer_size: None };
    assert!(!rows_only.should_flush(9, usize::MAX));
}

#[test]
fn threshold_triggers_exactly_one_flush() {
    let r = 50;
    let af = AutoFlush { row_group_len: r, buffer_size: None };
    let mut buffered = 0usize;
    let mut flushes = 0;
    for _ in 0..r {
        assert!(!af.should_flush(buffered, 0));
        buffered += 1;
    }
    if af.should_flush(buffered, 0) {
        flushes += 1;
        buffered = 0;
    }
    assert_eq!(flushes, 1);
    assert!(buffered < r);
    assert!(!af.should_flush(buffered, 0));
}

#[test]
fn rollover_after_cap() {
    let mut s = RolloverState::new(path(&["out", "3"]), "parquet".to_string(), 3);
    assert_eq!(s.current_path(), path(&["out", "3.parquet"]));
    assert!(!s.record_flush(10, 1));
    assert!(!s.record_flush(0, 1));
    assert!(!s.record_flush(10, 2));
    assert!(s.record_flush(10, 3));
    assert_eq!(s.num_written_files(), 1);
    assert_eq!(s.current_path(), path(&["out", "3_1.parquet"]));
    assert!(!s.record_flush(5, 1));
    assert_eq!(s.row_groups_in_file(), 1);
    assert_eq!(s.rows_written(), 35);
    s.record_close(7, 2);
    assert!(!s.needs_finalize());
    assert_eq!(s.row_groups_in_file(), 2);
    assert_eq!(s.rows_in_file(), 12);
    assert_eq!(s.rows_written(), 42);
}

#[test]
fn rollover_follows_reported_groups() {
    // A flush that the sink split into several row groups counts them all.
    let mut s = RolloverState::new(path(&["out", "3"]), "parquet".to_string(), 4);
    assert!(!s.record_flush(100, 3));
    assert!(s.record_flush(100, 5));
    assert_eq!(s.num_written_files(), 1);
    assert_eq!(s.row_groups_in_file(), 0);
}

#[test]
fn close_filling_the_file_opens_no_new_one() {
    let mut s = RolloverState::new(path(&["out", "3"]), "parquet".to_string(), 2);
    assert!(!s.record_flush(4, 1));
    s.record_close(4, 2);
    assert_eq!(s.num_written_files(), 0);
    assert_eq!(s.current_path(), path(&["out", "3.parquet"]));
    assert_eq!(s.rows_in_file(), 8);
}

#[test]
fn rows_conserved_across_files() {
    let mut s = RolloverState::new(path(&["t"]), "parquet".to_string(), 4);
    let sizes = [3usize, 0, 9, 1, 1, 7, 2, 0, 5, 8, 4];
    let mut per_file: Vec<u64> = Vec::new();
    for &n in sizes.iter() {
        let before = s.rows_in_file() + n as u64;
        let groups = s.row_groups_in_file() + if n > 0 { 1 } else { 0 };
        if s.record_flush(n, groups) {
            per_file.push(before);
        }
    }
    per_file.push(s.rows_in_file());
    assert_eq!(per_file.iter().sum::<u64>(), sizes.iter().sum::<usize>() as u64);
    assert_eq!(s.rows_written(), 40);
    assert_eq!(s.num_written_files() as usize + 1, per_file.len());
}

#[test]
fn second_file_and_group_total() {
    let cap = 5;
    let mut s = RolloverState::new(path(&["d", "0"]), "parquet".to_string(), cap);
    let mut groups_per_file = vec![0usize];
    for _ in 0..(cap + 2) {
        let rolled = s.record_flush(1, s.row_groups_in_file() + 1);
        *groups_per_file.last_mut().unwrap() += 1;
        if rolled {
            groups_per_file.push(0);
        }
    }
    assert_eq!(s.num_written_files(), 1);
    assert_eq!(s.current_path(), path(&["d", "0_1.parquet"]));
    assert_eq!(groups_per_file, vec![5, 2]);
    assert_eq!(groups_per_file.iter().sum::<usize>(), cap + 2);
}

#[test]
fn second_file_of_dotted_base() {
    let mut s = RolloverState::new(path(&["d", "x.parquet"]), "parquet".to_string(), 1);
    let first = s.current_path();
    assert!(s.record_flush(1, 1));
    let second = s.current_path();
    assert_eq!(first, path(&["d", "x.parquet"]));
    assert_eq!(second, path(&["d", "x_1.parquet"]));
}

#[test]
fn parquet_row_group_cap() {
    assert_eq!(PARQUET_MAX_ROW_GROUPS, i16::MAX as usize - 2);
}

#[test]
fn close_once() {
    let mut s = RolloverState::new(path(&["x"]), "parquet".to_string(), 2);
    assert!(s.needs_finalize());
    s.record_close(3, 1);
    assert!(!s.needs_finalize());
}

#[test]
fn four_writers_of_thousand_rows() {
    let dir = path(&["dataset"]);
    let config = ParquetTableWriterConfig { autoflush_row_group_len: Some(256), autoflush_buffer_size: None };
    let af = AutoFlush::from_config(&config, 1024 * 1024);
    let mut files = Vec::new();
    for seq in 0..4u64 {
        let mut s = RolloverState::new(table_path(&dir, seq), "parquet".to_string(), PARQUET_MAX_ROW_GROUPS);
        let mut groups = Vec::new();
        let mut buffered = 0usize;
        for _ in 0..1000 {
            if af.should_flush(buffered, 0) {
                s.record_flush(buffered, s.row_groups_in_file() + 1);
                groups.push(buffered);
                buffered = 0;
            }
            buffered += 1;
        }
        s.record_close(buffered, s.row_groups_in_file() + 1);
        groups.push(buffered);
        assert_eq!(groups, vec![256, 256, 256, 232]);
        assert_eq!(s.row_groups_in_file(), 4);
        assert_eq!(s.rows_in_file(), 1000);
        assert_eq!(s.rows_written(), 1000);
        assert_eq!(s.num_written_files(), 0);
        files.push(s.current_path());
    }
    assert_eq!(files.len(), 4);
    for i in 0..4 {
        assert_eq!(files[i], path(&["dataset", &format!("{}.parquet", i)]));
        for j in 0..i {
            assert_ne!(files[i], files[j]);
        }
    }
}
