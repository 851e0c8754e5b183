use hivex_rs::error::ErrorKind;
use hivex_rs::hive::{Hive, Node};
use hivex_rs::sys::{NodeRecord, ValueHandle, ValueRecord};

fn node(name: &str, parent: u64, children: &[u64], values: &[u64]) -> NodeRecord {
    NodeRecord {
        name: Some(name.as_bytes().to_vec()),
        timestamp: 116444736000000000,
        parent,
        children: Some(children.to_vec()),
        values: Some(values.to_vec()),
    }
}

fn engine_failure(e: &hivex_rs::error::Error, name: &str) -> bool {
    matches!(e.kind(), ErrorKind::Hivex { function } if function == name)
}

/// root 100 with children 1 and 2; 1 with children 3 and 4.
fn tree(handle: u64) -> NodeRecord {
    match handle {
        100 => node("ROOT", 0, &[1, 2], &[]),
        1 => node("a", 100, &[3, 4], &[]),
        2 => node("b", 100, &[], &[]),
        3 => node("c", 1, &[], &[]),
        4 => node("d", 1, &[], &[]),
        _ => NodeRecord { name: None, timestamp: 0, parent: 0, children: None, values: None },
    }
}

fn walk(hive: &mut Hive, engine: fn(u64) -> NodeRecord) -> Vec<(u64, Result<Node, hivex_rs::error::Error>)> {
    let mut seen = Vec::new();
    while let Some(next) = hive.pending() {
        let read = hive.next(engine(next.inner())).unwrap();
        seen.push((next.inner(), read));
        assert!(seen.len() < 1000);
    }
    seen
}

#[test]
fn a_missing_file_is_a_missing_file() {
    let e = Hive::new("/no/such/SOFTWARE", false, None).err().unwrap();
    assert!(matches!(e.kind(), ErrorKind::HiveFile { path } if path == "/no/such/SOFTWARE"));
    let e = Hive::new("/no/such/SOFTWARE", false, Some((0, 0))).err().unwrap();
    assert!(matches!(e.kind(), ErrorKind::HiveFile { .. }));
    let e = Hive::new("/no/such/SOFTWARE", false, Some((32, 0))).err().unwrap();
    assert!(matches!(e.kind(), ErrorKind::HiveFile { .. }));
}

#[test]
fn a_file_that_the_engine_refuses_is_an_engine_error() {
    let e = Hive::new("notes.txt", true, None).err().unwrap();
    assert!(engine_failure(&e, "hivex_open"));
    let e = Hive::new("SOFTWARE", true, Some((0, 5))).err().unwrap();
    assert!(engine_failure(&e, "hivex_root"));
}

#[test]
fn the_walk_starts_at_the_root() {
    let hive = Hive::new("SOFTWARE", true, Some((100, 7))).unwrap();
    assert_eq!(hive.pending().unwrap().inner(), 100);
    assert_eq!(hive.handle().root().unwrap().inner(), 100);
    assert_eq!(hive.handle().node_count(), 0);
}

#[test]
fn every_node_is_visited_once() {
    let mut hive = Hive::new("SOFTWARE", true, Some((100, 0))).unwrap();
    let seen = walk(&mut hive, tree);
    let mut handles: Vec<u64> = seen.iter().map(|(h, _)| *h).collect();
    assert_eq!(handles.len(), 5);
    handles.sort();
    assert_eq!(handles, vec![1, 2, 3, 4, 100]);
    assert_eq!(hive.handle().node_count(), 5);
    assert!(hive.pending().is_none());
    assert!(hive.next(tree(100)).is_none());
    assert_eq!(hive.handle().node_count(), 5);
}

#[test]
fn the_last_child_comes_first() {
    let mut hive = Hive::new("SOFTWARE", true, Some((100, 0))).unwrap();
    let seen = walk(&mut hive, tree);
    let order: Vec<u64> = seen.iter().map(|(h, _)| *h).collect();
    assert_eq!(order, vec![100, 2, 1, 4, 3]);
    let paths: Vec<String> =
        seen.iter().map(|(_, n)| n.as_ref().unwrap().path().to_string()).collect();
    assert_eq!(paths, vec!["/ROOT", "/ROOT/b", "/ROOT/a", "/ROOT/a/d", "/ROOT/a/c"]);
    let names: Vec<String> =
        seen.iter().map(|(_, n)| n.as_ref().unwrap().name().to_string()).collect();
    assert_eq!(names, vec!["ROOT", "b", "a", "d", "c"]);
}

#[test]
fn a_hive_of_one_node() {
    fn lonely(_: u64) -> NodeRecord {
        node("ROOT", 0, &[], &[])
    }
    let mut hive = Hive::new("SYSTEM", true, Some((32, 0))).unwrap();
    let seen = walk(&mut hive, lonely);
    assert_eq!(seen.len(), 1);
    assert_eq!(seen[0].0, 32);
    assert_eq!(seen[0].1.as_ref().unwrap().path(), "/ROOT");
}

#[test]
fn one_bad_node_does_not_end_the_walk() {
    fn engine(handle: u64) -> NodeRecord {
        match handle {
            1 => NodeRecord {
                name: None,
                timestamp: 0,
                parent: 100,
                children: Some(vec![3, 4]),
                values: None,
            },
            other => tree(other),
        }
    }
    let mut hive = Hive::new("SOFTWARE", true, Some((100, 0))).unwrap();
    let seen = walk(&mut hive, engine);
    let order: Vec<u64> = seen.iter().map(|(h, _)| *h).collect();
    assert_eq!(order, vec![100, 2, 1, 4, 3]);
    assert!(seen[0].1.is_ok());
    assert!(seen[1].1.is_ok());
    assert!(engine_failure(seen[2].1.as_ref().unwrap_err(), "hivex_node_name"));
    assert!(engine_failure(seen[3].1.as_ref().unwrap_err(), "hivex_node_name"));
    assert!(engine_failure(seen[4].1.as_ref().unwrap_err(), "hivex_node_name"));
}

#[test]
fn a_failed_listing_of_children_is_the_answer_of_the_step() {
    fn engine(handle: u64) -> NodeRecord {
        match handle {
            1 => NodeRecord {
                name: Some(b"a".to_vec()),
                timestamp: 0,
                parent: 100,
                children: None,
                values: Some(vec![]),
            },
            other => tree(other),
        }
    }
    let mut hive = Hive::new("SOFTWARE", true, Some((100, 0))).unwrap();
    let seen = walk(&mut hive, engine);
    let order: Vec<u64> = seen.iter().map(|(h, _)| *h).collect();
    assert_eq!(order, vec![100, 2, 1]);
    assert!(seen[0].1.is_ok());
    assert!(seen[1].1.is_ok());
    assert!(engine_failure(seen[2].1.as_ref().unwrap_err(), "hivex_node_children"));
    assert!(hive.pending().is_none());
}

#[test]
fn a_root_whose_children_cannot_be_listed_fails_the_first_step() {
    let mut hive = Hive::new("SOFTWARE", true, Some((100, 0))).unwrap();
    let mut record = tree(100);
    record.children = None;
    let read = hive.next(record).unwrap();
    assert!(engine_failure(&read.unwrap_err(), "hivex_node_children"));
    assert!(hive.pending().is_none());
    assert!(hive.next(tree(100)).is_none());
}

#[test]
fn the_failed_listing_comes_before_the_failures_of_the_node() {
    let mut hive = Hive::new("SOFTWARE", true, Some((100, 0))).unwrap();
    let record = NodeRecord { name: None, timestamp: 0, parent: 0, children: None, values: None };
    let read = hive.next(record).unwrap();
    assert!(engine_failure(&read.unwrap_err(), "hivex_node_children"));
}

#[test]
fn a_walk_goes_on_after_a_failed_listing() {
    fn engine(handle: u64) -> NodeRecord {
        match handle {
            2 => NodeRecord {
                name: Some(b"b".to_vec()),
                timestamp: 0,
                parent: 100,
                children: None,
                values: Some(vec![]),
            },
            other => tree(other),
        }
    }
    let mut hive = Hive::new("SOFTWARE", true, Some((100, 0))).unwrap();
    let seen = walk(&mut hive, engine);
    let order: Vec<u64> = seen.iter().map(|(h, _)| *h).collect();
    assert_eq!(order, vec![100, 2, 1, 4, 3]);
    assert!(engine_failure(seen[1].1.as_ref().unwrap_err(), "hivex_node_children"));
    assert_eq!(seen[2].1.as_ref().unwrap().path(), "/ROOT/a");
    assert_eq!(seen[4].1.as_ref().unwrap().path(), "/ROOT/a/c");
}

#[test]
fn a_hive_that_runs_in_circles_is_walked_once() {
    fn engine(handle: u64) -> NodeRecord {
        match handle {
            1 => node("one", 0, &[2], &[]),
            2 => node("two", 1, &[1, 2, 3], &[]),
            3 => node("three", 2, &[1, 3], &[]),
            _ => NodeRecord { name: None, timestamp: 0, parent: 0, children: None, values: None },
        }
    }
    let mut hive = Hive::new("SOFTWARE", true, Some((1, 0))).unwrap();
    let seen = walk(&mut hive, engine);
    let order: Vec<u64> = seen.iter().map(|(h, _)| *h).collect();
    assert_eq!(order, vec![1, 2, 3]);
    assert_eq!(seen[2].1.as_ref().unwrap().path(), "/one/two/three");
    assert!(hive.pending().is_none());
}

#[test]
fn a_child_listed_twice_is_visited_once() {
    fn engine(handle: u64) -> NodeRecord {
        match handle {
            1 => node("r", 0, &[2, 2, 3, 2], &[]),
            2 => node("x", 1, &[], &[]),
            3 => node("y", 1, &[2], &[]),
            _ => NodeRecord { name: None, timestamp: 0, parent: 0, children: None, values: None },
        }
    }
    let mut hive = Hive::new("SOFTWARE", true, Some((1, 0))).unwrap();
    let seen = walk(&mut hive, engine);
    let order: Vec<u64> = seen.iter().map(|(h, _)| *h).collect();
    assert_eq!(order, vec![1, 2, 3]);
}

#[test]
fn values_are_written_down_before_the_step() {
    fn engine(handle: u64) -> NodeRecord {
        match handle {
            100 => node("ROOT", 0, &[], &[500]),
            _ => NodeRecord { name: None, timestamp: 0, parent: 0, children: None, values: None },
        }
    }
    let mut hive = Hive::new("SOFTWARE", true, Some((100, 0))).unwrap();
    hive.record_value(
        &ValueHandle::from_raw(500),
        ValueRecord {
            key: Some(b"Count".to_vec()),
            meta: Some((11, 8)),
            raw: None,
            string: None,
            strings: None,
            dword: 0,
            qword: 12345678901,
        },
    );
    assert_eq!(hive.pending().unwrap().inner(), 100);
    let read = hive.next(engine(100)).unwrap().unwrap();
    assert_eq!(read.values().len(), 1);
    assert_eq!(read.values()[0].n, "Count");
    assert!(matches!(read.values()[0].v, hivex_rs::hive::ValueValue::QWord(12345678901)));
    assert!(hive.pending().is_none());
}
