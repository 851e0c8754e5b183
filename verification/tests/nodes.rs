use hivex_rs::error::ErrorKind;
use hivex_rs::hive::{Node, ValueValue};
use hivex_rs::sys::{HiveHandle, HiveType, NodeHandle, NodeRecord, ValueHandle, ValueRecord};

const EPOCH: i64 = 116444736000000000;

fn node(name: &str, parent: u64, children: &[u64], values: &[u64]) -> NodeRecord {
    NodeRecord {
        name: Some(name.as_bytes().to_vec()),
        timestamp: EPOCH,
        parent,
        children: Some(children.to_vec()),
        values: Some(values.to_vec()),
    }
}

fn dword(key: &str, number: i32) -> ValueRecord {
    ValueRecord {
        key: Some(key.as_bytes().to_vec()),
        meta: Some((4, 4)),
        raw: None,
        string: None,
        strings: None,
        dword: number,
        qword: 0,
    }
}

fn text(key: &str, content: &str) -> ValueRecord {
    ValueRecord {
        key: Some(key.as_bytes().to_vec()),
        meta: Some((1, 2 * content.len() as u64 + 2)),
        raw: None,
        string: Some(content.as_bytes().to_vec()),
        strings: None,
        dword: -1,
        qword: -1,
    }
}

fn engine_failure(e: &hivex_rs::error::Error, name: &str) -> bool {
    matches!(e.kind(), ErrorKind::Hivex { function } if function == name)
}

fn small_tree() -> HiveHandle {
    let mut hive = HiveHandle::new(1, EPOCH);
    hive.record_node(&NodeHandle::from_raw(1), node("ROOT", 0, &[2, 3], &[]));
    hive.record_node(&NodeHandle::from_raw(2), node("Microsoft", 1, &[4], &[11, 12]));
    hive.record_node(&NodeHandle::from_raw(3), node("Classes", 1, &[], &[]));
    let mut deep = node("Windows NT", 2, &[], &[13]);
    deep.timestamp = EPOCH + 864_000_000_000;
    hive.record_node(&NodeHandle::from_raw(4), deep);
    hive.record_value(&ValueHandle::from_raw(11), dword("Version", 10));
    hive.record_value(&ValueHandle::from_raw(12), text("", "Microsoft Corporation"));
    hive.record_value(&ValueHandle::from_raw(13), text("ProductName", "Windows 10 Pro"));
    hive
}

#[test]
fn the_path_of_the_root_is_a_slash_and_its_name() {
    let hive = small_tree();
    let root = Node::from_handle(&hive, &NodeHandle::from_raw(1)).unwrap();
    assert_eq!(root.name(), "ROOT");
    assert_eq!(root.path(), "/ROOT");
    assert_eq!(root.path(), format!("/{}", root.name()));
    assert!(root.values().is_empty());
    assert_eq!(root.last_modified().seconds(), 0);
}

#[test]
fn the_path_of_a_child_is_the_parents_path_a_slash_and_its_name() {
    let hive = small_tree();
    let parent = Node::from_handle(&hive, &NodeHandle::from_raw(2)).unwrap();
    let child = Node::from_handle(&hive, &NodeHandle::from_raw(4)).unwrap();
    assert_eq!(parent.path(), "/ROOT/Microsoft");
    assert_eq!(child.path(), "/ROOT/Microsoft/Windows NT");
    assert_eq!(child.path(), format!("{}/{}", parent.path(), child.name()));
    assert!(child.path().ends_with(child.name()));
    assert_eq!(child.last_modified().seconds(), 86_400);
}

#[test]
fn a_root_of_another_name_is_a_root_all_the_same() {
    let mut hive = HiveHandle::new(1, 0);
    hive.record_node(&NodeHandle::from_raw(1), node("CMI-CreateHive{2A7FB991}", 0, &[2], &[]));
    hive.record_node(&NodeHandle::from_raw(2), node("ROOT", 1, &[], &[]));
    let root = Node::from_handle(&hive, &NodeHandle::from_raw(1)).unwrap();
    assert_eq!(root.path(), "/CMI-CreateHive{2A7FB991}");
    let child = Node::from_handle(&hive, &NodeHandle::from_raw(2)).unwrap();
    assert_eq!(child.path(), "/CMI-CreateHive{2A7FB991}/ROOT");
}

#[test]
fn a_node_holds_its_values_in_the_engines_order() {
    let hive = small_tree();
    let n = Node::from_handle(&hive, &NodeHandle::from_raw(2)).unwrap();
    assert_eq!(n.values().len(), 2);
    assert_eq!(n.values()[0].n, "Version");
    assert_eq!(n.values()[0].t, HiveType::RegDword);
    assert_eq!(n.values()[0].l, 4);
    assert!(matches!(n.values()[0].v, ValueValue::DWord(10)));
    assert_eq!(n.values()[1].n, "(Default)");
    assert_eq!(n.values()[1].t, HiveType::RegSz);
    assert_eq!(n.values()[1].l, 44);
    assert!(matches!(&n.values()[1].v, ValueValue::String(s) if s == "Microsoft Corporation"));
}

#[test]
fn a_node_once_for_each_value() {
    let hive = small_tree();
    let n = Node::from_handle(&hive, &NodeHandle::from_raw(2)).unwrap();
    let by_value = n.get_nodes_by_value();
    assert_eq!(by_value.len(), 2);
    for row in &by_value {
        assert_eq!(row.name(), "Microsoft");
        assert_eq!(row.path(), "/ROOT/Microsoft");
        assert_eq!(row.last_modified().seconds(), 0);
    }
    assert_eq!(by_value[0].value().n, "Version");
    assert!(matches!(by_value[0].value().v, ValueValue::DWord(10)));
    assert_eq!(by_value[1].value().n, "(Default)");
    let empty = Node::from_handle(&hive, &NodeHandle::from_raw(3)).unwrap();
    assert!(empty.get_nodes_by_value().is_empty());
}

#[test]
fn one_bad_value_fails_the_node() {
    let mut hive = small_tree();
    let mut broken = dword("Version", 10);
    broken.key = None;
    hive.record_value(&ValueHandle::from_raw(12), broken);
    let e = Node::from_handle(&hive, &NodeHandle::from_raw(2)).unwrap_err();
    assert!(engine_failure(&e, "hivex_value_key"));
    let mut hive = small_tree();
    let mut first = dword("Version", 10);
    first.meta = None;
    hive.record_value(&ValueHandle::from_raw(11), first);
    let mut second = dword("x", 1);
    second.key = None;
    hive.record_value(&ValueHandle::from_raw(12), second);
    let e = Node::from_handle(&hive, &NodeHandle::from_raw(2)).unwrap_err();
    assert!(engine_failure(&e, "hivex_value_type"));
}

#[test]
fn a_value_that_is_not_on_record_fails_the_node() {
    let mut hive = small_tree();
    hive.record_node(&NodeHandle::from_raw(3), node("Classes", 1, &[], &[99]));
    let e = Node::from_handle(&hive, &NodeHandle::from_raw(3)).unwrap_err();
    assert!(engine_failure(&e, "hivex_value_type"));
}

#[test]
fn the_name_fails_before_anything_else() {
    let mut hive = small_tree();
    hive.record_node(
        &NodeHandle::from_raw(4),
        NodeRecord { name: None, timestamp: 0, parent: 77, children: None, values: None },
    );
    let e = Node::from_handle(&hive, &NodeHandle::from_raw(4)).unwrap_err();
    assert!(engine_failure(&e, "hivex_node_name"));
    let e = Node::from_handle(&hive, &NodeHandle::from_raw(1234)).unwrap_err();
    assert!(engine_failure(&e, "hivex_node_name"));
}

#[test]
fn a_failing_ancestor_fails_the_path() {
    let mut hive = small_tree();
    let mut nameless = node("x", 1, &[4], &[]);
    nameless.name = None;
    hive.record_node(&NodeHandle::from_raw(2), nameless);
    let e = Node::from_handle(&hive, &NodeHandle::from_raw(4)).unwrap_err();
    assert!(engine_failure(&e, "hivex_node_name"));
    let mut hive = small_tree();
    let mut garbled = node("x", 1, &[4], &[]);
    garbled.name = Some(vec![0xc0, 0x80]);
    hive.record_node(&NodeHandle::from_raw(2), garbled);
    let e = Node::from_handle(&hive, &NodeHandle::from_raw(4)).unwrap_err();
    assert!(matches!(e.kind(), ErrorKind::StrConvert));
}

#[test]
fn a_parent_that_is_not_on_record_fails_the_path() {
    let mut hive = HiveHandle::new(1, 0);
    hive.record_node(&NodeHandle::from_raw(5), node("orphan", 6, &[], &[]));
    let e = Node::from_handle(&hive, &NodeHandle::from_raw(5)).unwrap_err();
    assert!(engine_failure(&e, "hivex_node_name"));
}

#[test]
fn parents_in_a_circle_fail_the_path() {
    let mut hive = HiveHandle::new(1, 0);
    hive.record_node(&NodeHandle::from_raw(5), node("a", 6, &[], &[]));
    hive.record_node(&NodeHandle::from_raw(6), node("b", 5, &[], &[]));
    let e = Node::from_handle(&hive, &NodeHandle::from_raw(5)).unwrap_err();
    assert!(engine_failure(&e, "hivex_node_parent"));
    let mut own = HiveHandle::new(1, 0);
    own.record_node(&NodeHandle::from_raw(5), node("a", 5, &[], &[]));
    let e = Node::from_handle(&own, &NodeHandle::from_raw(5)).unwrap_err();
    assert!(engine_failure(&e, "hivex_node_parent"));
}

#[test]
fn a_chain_as_long_as_the_record_still_has_a_path() {
    let mut hive = HiveHandle::new(1, 0);
    hive.record_node(&NodeHandle::from_raw(1), node("r", 0, &[2], &[]));
    hive.record_node(&NodeHandle::from_raw(2), node("a", 1, &[3], &[]));
    hive.record_node(&NodeHandle::from_raw(3), node("b", 2, &[], &[]));
    let n = Node::from_handle(&hive, &NodeHandle::from_raw(3)).unwrap();
    assert_eq!(n.path(), "/r/a/b");
}

#[test]
fn a_failing_value_list_fails_the_node() {
    let mut hive = small_tree();
    let mut listless = node("Classes", 1, &[], &[]);
    listless.values = None;
    hive.record_node(&NodeHandle::from_raw(3), listless);
    let e = Node::from_handle(&hive, &NodeHandle::from_raw(3)).unwrap_err();
    assert!(engine_failure(&e, "hivex_node_values"));
}
