use std::cell::RefCell;

use dataset_writer::fan_in::collect_results;
use dataset_writer::partitioned::{PartitionError, U16PartitionedTableWriter, Utf8PartitionedTableWriter};
use dataset_writer::path::DatasetPath;

fn path(names: &[&str]) -> DatasetPath {
    DatasetPath { absolute: false, components: names.iter().map(|s| s.to_string()).collect() }
}

fn render(p: &DatasetPath) -> String {
    p.components.join("/")
}

#[test]
fn buckets_get_one_directory_each() {
    let w = U16PartitionedTableWriter::new(path(&["base", "7"]), "bucket".to_string(), Some(3), |p| {
        Ok::<String, ()>(render(&p))
    });
    let w = w.unwrap();
    assert_eq!(w.into_partitions(), vec!["base/bucket=0/7", "base/bucket=1/7", "base/bucket=2/7"]);
}

#[test]
fn buckets_disabled_collapse_to_one() {
    let mut w = U16PartitionedTableWriter::new(path(&["base", "7"]), "bucket".to_string(), None, |p| {
        Ok::<String, ()>(render(&p))
    })
    .unwrap();
    assert_eq!(w.partitions().len(), 1);
    assert_eq!(w.partitions()[0], "base/7");
}

#[test]
fn buckets_reject_root_path() {
    let r = U16PartitionedTableWriter::new(path(&[]), "bucket".to_string(), Some(2), |p| Ok::<String, ()>(render(&p)));
    assert_eq!(r.err(), Some(PartitionError::RootPath));
}

#[test]
fn buckets_reject_path_without_file_name() {
    let r = U16PartitionedTableWriter::new(path(&["a", ".."]), "bucket".to_string(), Some(2), |p| {
        Ok::<String, ()>(render(&p))
    });
    assert_eq!(r.err(), Some(PartitionError::RootPath));
    assert!(Utf8PartitionedTableWriter::<u8, (), ()>::new(path(&["a", "."]), "k".to_string(), (), ()).is_none());
}

#[test]
fn buckets_report_writer_error() {
    let r = U16PartitionedTableWriter::new(path(&["b", "1"]), "c".to_string(), Some(4), |p| {
        if p.components[1] == "c=2" {
            Err(render(&p))
        } else {
            Ok(0u8)
        }
    });
    assert_eq!(r.err(), Some(PartitionError::Writer("b/c=2/1".to_string())));
}

#[test]
fn keyed_partition_routing() {
    let mut w = Utf8PartitionedTableWriter::new(path(&["base", "4"]), "year".to_string(), (), ()).unwrap();
    let created = RefCell::new(Vec::new());
    let make = |p: DatasetPath| {
        created.borrow_mut().push(render(&p));
        Ok::<Vec<u32>, String>(Vec::new())
    };
    w.partition("2021".to_string(), make).unwrap().push(1);
    assert_eq!(*created.borrow(), vec!["base/year=2021/4"]);
    w.partition("2021".to_string(), make).unwrap().push(2);
    assert_eq!(created.borrow().len(), 1);
    w.partition("2022".to_string(), make).unwrap().push(3);
    assert_eq!(*created.borrow(), vec!["base/year=2021/4", "base/year=2022/4"]);
    assert_eq!(w.partition_keys(), &vec!["2021".to_string(), "2022".to_string()]);
    assert_eq!(w.find(&"2022".to_string()), Some(1));
    assert_eq!(w.find(&"2023".to_string()), None);
    assert_eq!(w.into_partitions(), vec![vec![1, 2], vec![3]]);
}

#[test]
fn keyed_partition_exact_key_match() {
    let mut w = Utf8PartitionedTableWriter::new(path(&["b", "0"]), "k".to_string(), (), ()).unwrap();
    w.partition("a".to_string(), |_p| Ok::<u8, ()>(1)).unwrap();
    w.partition("A".to_string(), |_p| Ok::<u8, ()>(2)).unwrap();
    w.partition("a ".to_string(), |_p| Ok::<u8, ()>(3)).unwrap();
    assert_eq!(w.partitions(), &mut [1, 2, 3]);
}

#[test]
fn keyed_partition_error_leaves_registry() {
    let mut w = Utf8PartitionedTableWriter::new(path(&["b", "0"]), "k".to_string(), 5u8, 6u8).unwrap();
    let r = w.partition("x".to_string(), |p| Err::<u8, String>(render(&p)));
    assert_eq!(r.err(), Some("b/k=x/0".to_string()));
    assert!(w.partition_keys().is_empty());
    assert_eq!(*w.schema(), 5);
    assert_eq!(*w.config(), 6);
}

#[test]
fn keyed_rejects_root_path() {
    assert!(Utf8PartitionedTableWriter::<u8, (), ()>::new(path(&[]), "k".to_string(), (), ()).is_none());
}

#[test]
fn fan_in_collects_all_or_first_error() {
    let ok: Vec<Result<u32, String>> = vec![Ok(1), Ok(2), Ok(3)];
    assert_eq!(collect_results(ok), Ok(vec![1, 2, 3]));
    let bad: Vec<Result<u32, String>> = vec![Ok(1), Err("a".to_string()), Ok(3), Err("b".to_string())];
    assert_eq!(collect_results(bad), Err("a".to_string()));
    let empty: Vec<Result<u32, String>> = Vec::new();
    assert_eq!(collect_results(empty), Ok(vec![]));
}
