//! The session with the registry engine, as a record of what it reported.
//!
//! The engine itself is reached from outside this library. Whoever drives it
//! writes each answer down here, raw: a missing text as `None`, a missing
//! handle as `0`. The handles then read their attributes from the record,
//! and what an answer means is decided here.
use std::collections::HashMap;
use vstd::prelude::*;
use vstd::slice::slice_to_vec;
use vstd::string::StringExecFns;
use crate::error::Error;
use crate::error::ErrorView;
use crate::error::hivex_error;
use crate::error::int_convert_error;
use crate::multi_sz::strings_of;
use crate::multi_sz::strings_value;
use crate::text::chars_to_string;
use crate::text::text_of;
use crate::timestamp::filetime_seconds;
use crate::timestamp::Timestamp;
use crate::timestamp::filetime_to_timestamp;
use crate::timestamp::moment;

verus! {

/// The registry's type tags.
#[derive(Debug, Clone, Copy, PartialEq, Eq, Structural)]
pub enum HiveType {
    RegNone,
    RegSz,
    RegExpandSz,
    RegBinary,
    RegDword,
    RegDwordBigEndian,
    RegLink,
    RegMultiSz,
    RegResourceList,
    RegFullResourceDescriptor,
    RegResourceRequirementsList,
    RegQword,
    /// A tag that the registry does not define.
    Unknown(u32),
}

impl HiveType {
    /// The type that the number `tag` stands for on disk.
    pub open spec fn of(tag: u32) -> HiveType {
        if tag == 0 {
            HiveType::RegNone
        } else if tag == 1 {
            HiveType::RegSz
        } else if tag == 2 {
            HiveType::RegExpandSz
        } else if tag == 3 {
            HiveType::RegBinary
        } else if tag == 4 {
            HiveType::RegDword
        } else if tag == 5 {
            HiveType::RegDwordBigEndian
        } else if tag == 6 {
            HiveType::RegLink
        } else if tag == 7 {
            HiveType::RegMultiSz
        } else if tag == 8 {
            HiveType::RegResourceList
        } else if tag == 9 {
            HiveType::RegFullResourceDescriptor
        } else if tag == 10 {
            HiveType::RegResourceRequirementsList
        } else if tag == 11 {
            HiveType::RegQword
        } else {
            HiveType::Unknown(tag)
        }
    }

    /// The type that the number `tag` stands for on disk.
    pub fn from_raw(tag: u32) -> (t: HiveType)
        ensures
            t == HiveType::of(tag),
    {
        match tag {
            0 => HiveType::RegNone,
            1 => HiveType::RegSz,
            2 => HiveType::RegExpandSz,
            3 => HiveType::RegBinary,
            4 => HiveType::RegDword,
            5 => HiveType::RegDwordBigEndian,
            6 => HiveType::RegLink,
            7 => HiveType::RegMultiSz,
            8 => HiveType::RegResourceList,
            9 => HiveType::RegFullResourceDescriptor,
            10 => HiveType::RegResourceRequirementsList,
            11 => HiveType::RegQword,
            _ => HiveType::Unknown(tag),
        }
    }
}

/// What the engine reported of one node.
#[derive(Debug)]
pub struct NodeRecord {
    /// The bytes of the name; `None` where the engine gave none.
    pub name: Option<Vec<u8>>,
    /// The last modification, in ticks.
    pub timestamp: i64,
    /// The parent's handle; `0` where the engine gave none.
    pub parent: u64,
    /// The children's handles, in the engine's order; `None` where the
    /// engine failed to list them.
    pub children: Option<Vec<u64>>,
    /// The values' handles, in the engine's order; `None` where the engine
    /// failed to list them.
    pub values: Option<Vec<u64>>,
}

/// The mathematical value of a [`NodeRecord`].
pub struct NodeRecordView {
    pub name: Option<Seq<u8>>,
    pub timestamp: i64,
    pub parent: u64,
    pub children: Option<Seq<u64>>,
    pub values: Option<Seq<u64>>,
}

impl View for NodeRecord {
    type V = NodeRecordView;

    open spec fn view(&self) -> NodeRecordView {
        NodeRecordView {
            name: match self.name {
                Some(bytes) => Some(bytes@),
                None => None,
            },
            timestamp: self.timestamp,
            parent: self.parent,
            children: match self.children {
                Some(list) => Some(list@),
                None => None,
            },
            values: match self.values {
                Some(list) => Some(list@),
                None => None,
            },
        }
    }
}

/// What the engine reported of one value.
#[derive(Debug)]
pub struct ValueRecord {
    /// The bytes of the value's name; `None` where the engine gave none.
    pub key: Option<Vec<u8>>,
    /// The type tag and the length in bytes; `None` where the engine failed.
    pub meta: Option<(u32, u64)>,
    /// The raw bytes; `None` where the engine gave none.
    pub raw: Option<Vec<i8>>,
    /// The value read as one text; `None` where the engine gave none.
    pub string: Option<Vec<u8>>,
    /// The value read as a list of texts; `None` where the engine gave none.
    pub strings: Option<Vec<Vec<u8>>>,
    /// The value read as a 32-bit number.
    pub dword: i32,
    /// The value read as a 64-bit number.
    pub qword: i64,
}

/// The mathematical value of a [`ValueRecord`].
pub struct ValueRecordView {
    pub key: Option<Seq<u8>>,
    pub meta: Option<(u32, u64)>,
    pub raw: Option<Seq<i8>>,
    pub string: Option<Seq<u8>>,
    pub strings: Option<Seq<Seq<u8>>>,
    pub dword: i32,
    pub qword: i64,
}

impl View for ValueRecord {
    type V = ValueRecordView;

    open spec fn view(&self) -> ValueRecordView {
        ValueRecordView {
            key: match self.key {
                Some(bytes) => Some(bytes@),
                None => None,
            },
            meta: self.meta,
            raw: match self.raw {
                Some(bytes) => Some(bytes@),
                None => None,
            },
            string: match self.string {
                Some(bytes) => Some(bytes@),
                None => None,
            },
            strings: match self.strings {
                Some(list) => Some(list.deep_view()),
                None => None,
            },
            dword: self.dword,
            qword: self.qword,
        }
    }
}

/// The mathematical value of a session: the root as the engine gave it, the
/// hive's own tick count, and the records by handle.
pub struct HiveView {
    pub root: u64,
    pub last_modified: i64,
    pub nodes: Map<u64, NodeRecordView>,
    pub values: Map<u64, ValueRecordView>,
}

/// A session with the engine: what it has reported so far.
#[derive(Debug)]
pub struct HiveHandle {
    root: u64,
    last_modified: i64,
    nodes: HashMap<u64, NodeRecord>,
    values: HashMap<u64, ValueRecord>,
}

impl View for HiveHandle {
    type V = HiveView;

    closed spec fn view(&self) -> HiveView {
        HiveView {
            root: self.root,
            last_modified: self.last_modified,
            nodes: self.nodes@.map_values(|r: NodeRecord| r@),
            values: self.values@.map_values(|r: ValueRecord| r@),
        }
    }
}

/// A position in the tree, as the engine names it.
#[derive(Debug, Clone, Copy, PartialEq, Eq, Structural)]
pub struct NodeHandle {
    inner: u64,
}

/// A value slot, as the engine names it.
#[derive(Debug, Clone, Copy, PartialEq, Eq, Structural)]
pub struct ValueHandle {
    inner: u64,
}

impl DeepView for NodeHandle {
    type V = u64;

    open spec fn deep_view(&self) -> u64 {
        self@
    }
}

impl DeepView for ValueHandle {
    type V = u64;

    open spec fn deep_view(&self) -> u64 {
        self@
    }
}

impl View for NodeHandle {
    type V = u64;

    closed spec fn view(&self) -> u64 {
        self.inner
    }
}

impl View for ValueHandle {
    type V = u64;

    closed spec fn view(&self) -> u64 {
        self.inner
    }
}

/// The name of node `n`: its bytes read as UTF-8. An engine error where the
/// record holds no name for `n`.
pub open spec fn node_name(h: HiveView, n: u64) -> Result<Seq<char>, ErrorView> {
    if h.nodes.contains_key(n) && h.nodes[n].name is Some {
        text_of(h.nodes[n].name->0)
    } else {
        Err(hivex_error("hivex_node_name"@))
    }
}

/// The tick count of node `n`; zero where nothing is recorded of `n`.
pub open spec fn node_ticks(h: HiveView, n: u64) -> i64 {
    if h.nodes.contains_key(n) {
        h.nodes[n].timestamp
    } else {
        0
    }
}

/// The children of node `n`, in the engine's order.
pub open spec fn node_children(h: HiveView, n: u64) -> Result<Seq<u64>, ErrorView> {
    if h.nodes.contains_key(n) && h.nodes[n].children is Some {
        Ok(h.nodes[n].children->0)
    } else {
        Err(hivex_error("hivex_node_children"@))
    }
}

/// The values of node `n`, in the engine's order.
pub open spec fn node_values(h: HiveView, n: u64) -> Result<Seq<u64>, ErrorView> {
    if h.nodes.contains_key(n) && h.nodes[n].values is Some {
        Ok(h.nodes[n].values->0)
    } else {
        Err(hivex_error("hivex_node_values"@))
    }
}

/// The parent of node `n`; none where the engine gave none.
pub open spec fn node_parent(h: HiveView, n: u64) -> Option<u64> {
    if h.nodes.contains_key(n) && h.nodes[n].parent != 0 {
        Some(h.nodes[n].parent)
    } else {
        None
    }
}

/// The label that stands for a value without a name.
pub open spec fn default_key() -> Seq<char> {
    "(Default)"@
}

/// The name of value `v`, the empty name replaced by [`default_key`].
pub open spec fn value_key(h: HiveView, v: u64) -> Result<Seq<char>, ErrorView> {
    if h.values.contains_key(v) && h.values[v].key is Some {
        match text_of(h.values[v].key->0) {
            Ok(text) => Ok(
                if text.len() == 0 {
                    default_key()
                } else {
                    text
                },
            ),
            Err(e) => Err(e),
        }
    } else {
        Err(hivex_error("hivex_value_key"@))
    }
}

/// The type and the length of value `v`.
pub open spec fn value_meta(h: HiveView, v: u64) -> Result<(HiveType, usize), ErrorView> {
    if h.values.contains_key(v) && h.values[v].meta is Some {
        let (tag, len) = h.values[v].meta->0;
        if len <= usize::MAX {
            Ok((HiveType::of(tag), len as usize))
        } else {
            Err(int_convert_error())
        }
    } else {
        Err(hivex_error("hivex_value_type"@))
    }
}

/// The raw bytes of value `v`. The engine is asked for the type and the
/// length first; bytes that it did not give, or that are not as many as
/// the length it reported, are a failure to give the value.
pub open spec fn value_raw(h: HiveView, v: u64) -> Result<Seq<i8>, ErrorView> {
    if !(h.values.contains_key(v) && h.values[v].meta is Some) {
        Err(hivex_error("hivex_value_type"@))
    } else {
        let reported = h.values[v].meta->0;
        if h.values[v].raw is Some && h.values[v].raw->0.len() == reported.1 {
            Ok(h.values[v].raw->0)
        } else {
            Err(hivex_error("hivex_value_value"@))
        }
    }
}

/// Value `v` read as one text.
pub open spec fn value_string(h: HiveView, v: u64) -> Result<Seq<char>, ErrorView> {
    if h.values.contains_key(v) && h.values[v].string is Some {
        text_of(h.values[v].string->0)
    } else {
        Err(hivex_error("hivex_value_string"@))
    }
}

/// Value `v` read as a list of texts, as many as its raw bytes announce.
pub open spec fn value_strings(h: HiveView, v: u64) -> Result<Seq<Seq<char>>, ErrorView> {
    if h.values.contains_key(v) && h.values[v].strings is Some {
        match value_raw(h, v) {
            Ok(raw) => strings_of(raw, h.values[v].strings->0),
            Err(e) => Err(e),
        }
    } else {
        Err(hivex_error("hivex_value_multiple_strings"@))
    }
}

/// Value `v` read as a 32-bit number.
pub open spec fn value_dword(h: HiveView, v: u64) -> Result<i32, ErrorView> {
    if h.values.contains_key(v) {
        Ok(h.values[v].dword)
    } else {
        Err(hivex_error("hivex_value_dword"@))
    }
}

/// Value `v` read as a 64-bit number.
pub open spec fn value_qword(h: HiveView, v: u64) -> Result<i64, ErrorView> {
    if h.values.contains_key(v) {
        Ok(h.values[v].qword)
    } else {
        Err(hivex_error("hivex_value_qword"@))
    }
}

/// The root of the hive; an engine error where the engine gave `0`.
pub open spec fn hive_root(h: HiveView) -> Result<u64, ErrorView> {
    if h.root != 0 {
        Ok(h.root)
    } else {
        Err(hivex_error("hivex_root"@))
    }
}

impl HiveHandle {
    /// A session of which the engine has so far given the root (`0` where
    /// it gave none) and the hive's own tick count.
    pub fn new(root: u64, last_modified: i64) -> (hive: HiveHandle)
        ensures
            hive@ == (HiveView {
                root,
                last_modified,
                nodes: Map::<u64, NodeRecordView>::empty(),
                values: Map::<u64, ValueRecordView>::empty(),
            }),
    {
        let hive = HiveHandle {
            root,
            last_modified,
            nodes: HashMap::new(),
            values: HashMap::new(),
        };
        assert(hive@.nodes =~= Map::<u64, NodeRecordView>::empty());
        assert(hive@.values =~= Map::<u64, ValueRecordView>::empty());
        hive
    }

    /// Writes down what the engine reported of `node`, in place of anything
    /// recorded of it before.
    pub fn record_node(&mut self, node: &NodeHandle, record: NodeRecord)
        ensures
            final(self)@ == (HiveView {
                nodes: old(self)@.nodes.insert(node@, record@),
                ..old(self)@
            }),
    {
        broadcast use vstd::std_specs::hash::group_hash_axioms;

        self.nodes.insert(node.inner, record);
        assert(self@.nodes =~= old(self)@.nodes.insert(node@, record@));
    }

    /// Writes down what the engine reported of `value`, in place of anything
    /// recorded of it before.
    pub fn record_value(&mut self, value: &ValueHandle, record: ValueRecord)
        ensures
            final(self)@ == (HiveView {
                values: old(self)@.values.insert(value@, record@),
                ..old(self)@
            }),
    {
        broadcast use vstd::std_specs::hash::group_hash_axioms;

        self.values.insert(value.inner, record);
        assert(self@.values =~= old(self)@.values.insert(value@, record@));
    }

    /// Whether anything is recorded of `node`.
    pub fn has_node(&self, node: &NodeHandle) -> (b: bool)
        ensures
            b == self@.nodes.contains_key(node@),
    {
        broadcast use vstd::std_specs::hash::group_hash_axioms;

        self.nodes.contains_key(&node.inner)
    }

    /// The number of nodes of which something is recorded.
    pub fn node_count(&self) -> (n: usize)
        ensures
            n == self@.nodes.dom().len(),
            self@.nodes.dom().finite(),
    {
        broadcast use vstd::std_specs::hash::group_hash_axioms;

        assert(self@.nodes.dom() =~= self.nodes@.dom());
        self.nodes.len()
    }

    /// The root node of the hive.
    pub fn root(&self) -> (res: Result<NodeHandle, Error>)
        ensures
            match hive_root(self@) {
                Ok(n) => res matches Ok(node) && node@ == n,
                Err(e) => res matches Err(err) && err@ == e,
            },
    {
        match self.root {
            0 => Err(Error::hivex_error("hivex_root")),
            n => Ok(NodeHandle { inner: n }),
        }
    }

    /// When the hive was last modified. A tick count of zero is taken as
    /// it stands.
    pub fn last_modified(&self) -> (t: Timestamp)
        ensures
            t@ == moment(filetime_seconds(self@.last_modified as int)),
    {
        filetime_to_timestamp(self.last_modified)
    }
}

impl NodeHandle {
    /// The handle that the engine writes as `inner`.
    pub fn from_raw(inner: u64) -> (node: NodeHandle)
        ensures
            node@ == inner,
    {
        NodeHandle { inner }
    }

    /// The handle as the engine writes it.
    pub fn inner(&self) -> (inner: u64)
        ensures
            inner == self@,
    {
        self.inner
    }

    /// The name of the node.
    pub fn name(&self, hive_handle: &HiveHandle) -> (res: Result<String, Error>)
        ensures
            match node_name(hive_handle@, self@) {
                Ok(text) => res matches Ok(name) && name@ == text,
                Err(e) => res matches Err(err) && err@ == e,
            },
    {
        broadcast use vstd::std_specs::hash::group_hash_axioms;

        match hive_handle.nodes.get(&self.inner) {
            Some(record) => match &record.name {
                Some(bytes) => {
                    let mut name = String::new();
                    match chars_to_string(bytes.as_slice(), &mut name) {
                        Ok(()) => Ok(name),
                        Err(e) => Err(e),
                    }
                },
                None => Err(Error::hivex_error("hivex_node_name")),
            },
            None => Err(Error::hivex_error("hivex_node_name")),
        }
    }

    /// When the node was last modified.
    pub fn last_modified(&self, hive_handle: &HiveHandle) -> (t: Timestamp)
        ensures
            t@ == moment(filetime_seconds(node_ticks(hive_handle@, self@) as int)),
    {
        broadcast use vstd::std_specs::hash::group_hash_axioms;

        let ticks = match hive_handle.nodes.get(&self.inner) {
            Some(record) => record.timestamp,
            None => 0,
        };
        filetime_to_timestamp(ticks)
    }

    /// The child nodes, in the engine's order; none is not an error.
    pub fn children(&self, hive_handle: &HiveHandle) -> (res: Result<Vec<NodeHandle>, Error>)
        ensures
            match node_children(hive_handle@, self@) {
                Ok(list) => res matches Ok(nodes) && nodes.deep_view() == list,
                Err(e) => res matches Err(err) && err@ == e,
            },
    {
        broadcast use vstd::std_specs::hash::group_hash_axioms;

        match hive_handle.nodes.get(&self.inner) {
            Some(record) => match &record.children {
                Some(list) => {
                    let mut nodes: Vec<NodeHandle> = Vec::new();
                    let mut i: usize = 0;
                    while i < list.len()
                        invariant
                            i <= list.len(),
                            nodes.len() == i,
                            forall|j: int| 0 <= j < i ==> (#[trigger] nodes[j])@ == list[j],
                        decreases list.len() - i,
                    {
                        nodes.push(NodeHandle { inner: list[i] });
                        i = i + 1;
                    }
                    assert(nodes.deep_view() =~= list@);
                    Ok(nodes)
                },
                None => Err(Error::hivex_error("hivex_node_children")),
            },
            None => Err(Error::hivex_error("hivex_node_children")),
        }
    }

    /// The values, in the engine's order; none is not an error.
    pub fn values(&self, hive_handle: &HiveHandle) -> (res: Result<Vec<ValueHandle>, Error>)
        ensures
            match node_values(hive_handle@, self@) {
                Ok(list) => res matches Ok(values) && values.deep_view() == list,
                Err(e) => res matches Err(err) && err@ == e,
            },
    {
        broadcast use vstd::std_specs::hash::group_hash_axioms;

        match hive_handle.nodes.get(&self.inner) {
            Some(record) => match &record.values {
                Some(list) => {
                    let mut values: Vec<ValueHandle> = Vec::new();
                    let mut i: usize = 0;
                    while i < list.len()
                        invariant
                            i <= list.len(),
                            values.len() == i,
                            forall|j: int| 0 <= j < i ==> (#[trigger] values[j])@ == list[j],
                        decreases list.len() - i,
                    {
                        values.push(ValueHandle { inner: list[i] });
                        i = i + 1;
                    }
                    assert(values.deep_view() =~= list@);
                    Ok(values)
                },
                None => Err(Error::hivex_error("hivex_node_values")),
            },
            None => Err(Error::hivex_error("hivex_node_values")),
        }
    }

    /// The parent node; `None` where the engine gave none.
    pub fn parent(&self, hive_handle: &HiveHandle) -> (res: Option<NodeHandle>)
        ensures
            match node_parent(hive_handle@, self@) {
                Some(p) => res matches Some(node) && node@ == p,
                None => res is None,
            },
    {
        broadcast use vstd::std_specs::hash::group_hash_axioms;

        match hive_handle.nodes.get(&self.inner) {
            Some(record) => match record.parent {
                0 => None,
                p => Some(NodeHandle { inner: p }),
            },
            None => None,
        }
    }
}

impl ValueHandle {
    /// The handle that the engine writes as `inner`.
    pub fn from_raw(inner: u64) -> (value: ValueHandle)
        ensures
            value@ == inner,
    {
        ValueHandle { inner }
    }

    /// The handle as the engine writes it.
    pub fn inner(&self) -> (inner: u64)
        ensures
            inner == self@,
    {
        self.inner
    }

    /// The name of the value; a value without a name is called `(Default)`.
    pub fn key(&self, hive_handle: &HiveHandle) -> (res: Result<String, Error>)
        ensures
            match value_key(hive_handle@, self@) {
                Ok(text) => res matches Ok(key) && key@ == text,
                Err(e) => res matches Err(err) && err@ == e,
            },
    {
        broadcast use vstd::std_specs::hash::group_hash_axioms;

        match hive_handle.values.get(&self.inner) {
            Some(record) => match &record.key {
                Some(bytes) => {
                    let mut key = String::new();
                    match chars_to_string(bytes.as_slice(), &mut key) {
                        Ok(()) => {},
                        Err(e) => {
                            return Err(e);
                        },
                    }
                    if key.as_str().is_empty() {
                        key = String::from_str("(Default)");
                    }
                    Ok(key)
                },
                None => Err(Error::hivex_error("hivex_value_key")),
            },
            None => Err(Error::hivex_error("hivex_value_key")),
        }
    }

    /// The type of the value.
    pub fn kind(&self, hive_handle: &HiveHandle) -> (res: Result<HiveType, Error>)
        ensures
            match value_meta(hive_handle@, self@) {
                Ok(meta) => res == Ok::<HiveType, Error>(meta.0),
                Err(e) => res matches Err(err) && err@ == e,
            },
    {
        match self.meta(hive_handle) {
            Ok((t, _)) => Ok(t),
            Err(e) => Err(e),
        }
    }

    /// The length of the value's raw form in bytes, as the engine reports it.
    pub fn len(&self, hive_handle: &HiveHandle) -> (res: Result<usize, Error>)
        ensures
            match value_meta(hive_handle@, self@) {
                Ok(meta) => res == Ok::<usize, Error>(meta.1),
                Err(e) => res matches Err(err) && err@ == e,
            },
    {
        match self.meta(hive_handle) {
            Ok((_, l)) => Ok(l),
            Err(e) => Err(e),
        }
    }

    /// The type and the length of the value. A length that no `usize` holds
    /// is an integer conversion error.
    pub fn meta(&self, hive_handle: &HiveHandle) -> (res: Result<(HiveType, usize), Error>)
        ensures
            match value_meta(hive_handle@, self@) {
                Ok(meta) => res == Ok::<(HiveType, usize), Error>(meta),
                Err(e) => res matches Err(err) && err@ == e,
            },
    {
        broadcast use vstd::std_specs::hash::group_hash_axioms;

        match hive_handle.values.get(&self.inner) {
            Some(record) => match record.meta {
                Some((tag, len)) => match usize::try_from(len) {
                    Ok(len) => Ok((HiveType::from_raw(tag), len)),
                    Err(e) => Err(Error::from(e)),
                },
                None => Err(Error::hivex_error("hivex_value_type")),
            },
            None => Err(Error::hivex_error("hivex_value_type")),
        }
    }

    /// The raw bytes of the value, as many as the engine reported with the
    /// type.
    pub fn raw(&self, hive_handle: &HiveHandle) -> (res: Result<Vec<i8>, Error>)
        ensures
            match value_raw(hive_handle@, self@) {
                Ok(bytes) => res matches Ok(raw) && raw@ == bytes,
                Err(e) => res matches Err(err) && err@ == e,
            },
    {
        broadcast use vstd::std_specs::hash::group_hash_axioms;

        match hive_handle.values.get(&self.inner) {
            Some(record) => match record.meta {
                Some((_, len)) => match &record.raw {
                    Some(bytes) => {
                        if bytes.len() as u64 == len {
                            Ok(slice_to_vec(bytes.as_slice()))
                        } else {
                            Err(Error::hivex_error("hivex_value_value"))
                        }
                    },
                    None => Err(Error::hivex_error("hivex_value_value")),
                },
                None => Err(Error::hivex_error("hivex_value_type")),
            },
            None => Err(Error::hivex_error("hivex_value_type")),
        }
    }

    /// The value read as one text.
    pub fn string(&self, hive_handle: &HiveHandle) -> (res: Result<String, Error>)
        ensures
            match value_string(hive_handle@, self@) {
                Ok(text) => res matches Ok(string) && string@ == text,
                Err(e) => res matches Err(err) && err@ == e,
            },
    {
        broadcast use vstd::std_specs::hash::group_hash_axioms;

        match hive_handle.values.get(&self.inner) {
            Some(record) => match &record.string {
                Some(bytes) => {
                    let mut string = String::new();
                    match chars_to_string(bytes.as_slice(), &mut string) {
                        Ok(()) => Ok(string),
                        Err(e) => Err(e),
                    }
                },
                None => Err(Error::hivex_error("hivex_value_string")),
            },
            None => Err(Error::hivex_error("hivex_value_string")),
        }
    }

    /// The value read as a list of texts.
    pub fn strings(&self, hive_handle: &HiveHandle) -> (res: Result<Vec<String>, Error>)
        ensures
            match value_strings(hive_handle@, self@) {
                Ok(list) => res matches Ok(strings) && strings.deep_view() == list,
                Err(e) => res matches Err(err) && err@ == e,
            },
    {
        broadcast use vstd::std_specs::hash::group_hash_axioms;

        match hive_handle.values.get(&self.inner) {
            Some(record) => match &record.strings {
                Some(texts) => match self.raw(hive_handle) {
                    Ok(raw) => strings_value(raw.as_slice(), texts),
                    Err(e) => Err(e),
                },
                None => Err(Error::hivex_error("hivex_value_multiple_strings")),
            },
            None => Err(Error::hivex_error("hivex_value_multiple_strings")),
        }
    }

    /// The value read as a 32-bit number.
    pub fn dword(&self, hive_handle: &HiveHandle) -> (res: Result<i32, Error>)
        ensures
            match value_dword(hive_handle@, self@) {
                Ok(number) => res == Ok::<i32, Error>(number),
                Err(e) => res matches Err(err) && err@ == e,
            },
    {
        broadcast use vstd::std_specs::hash::group_hash_axioms;

        match hive_handle.values.get(&self.inner) {
            Some(record) => Ok(record.dword),
            None => Err(Error::hivex_error("hivex_value_dword")),
        }
    }

    /// The value read as a 64-bit number.
    pub fn qword(&self, hive_handle: &HiveHandle) -> (res: Result<i64, Error>)
        ensures
            match value_qword(hive_handle@, self@) {
                Ok(number) => res == Ok::<i64, Error>(number),
                Err(e) => res matches Err(err) && err@ == e,
            },
    {
        broadcast use vstd::std_specs::hash::group_hash_axioms;

        match hive_handle.values.get(&self.inner) {
            Some(record) => Ok(record.qword),
            None => Err(Error::hivex_error("hivex_value_qword")),
        }
    }
}

} // verus!
