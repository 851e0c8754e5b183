//! Registry values: a name, a type, a length and the typed payload.
use vstd::prelude::*;
use vstd::slice::slice_to_vec;
use crate::error::Error;
use crate::error::ErrorView;
use crate::sys::HiveHandle;
use crate::sys::HiveType;
use crate::sys::HiveView;
use crate::sys::ValueHandle;
use crate::sys::value_dword;
use crate::sys::value_key;
use crate::sys::value_meta;
use crate::sys::value_qword;
use crate::sys::value_raw;
use crate::sys::value_string;
use crate::sys::value_strings;

verus! {

/// The payload of a value, by what its type says it is.
#[derive(Debug)]
pub enum ValueValue {
    /// A value of the type that holds nothing.
    Empty,
    String(String),
    Strings(Vec<String>),
    DWord(i32),
    QWord(i64),
    Binary(Vec<i8>),
    /// The raw bytes of a value whose type has no reading here.
    Unsupported(Vec<i8>),
}

/// The mathematical value of a [`ValueValue`].
pub enum ValueValueView {
    Empty,
    String(Seq<char>),
    Strings(Seq<Seq<char>>),
    DWord(i32),
    QWord(i64),
    Binary(Seq<i8>),
    Unsupported(Seq<i8>),
}

impl View for ValueValue {
    type V = ValueValueView;

    open spec fn view(&self) -> ValueValueView {
        match *self {
            ValueValue::Empty => ValueValueView::Empty,
            ValueValue::String(text) => ValueValueView::String(text@),
            ValueValue::Strings(list) => ValueValueView::Strings(list.deep_view()),
            ValueValue::DWord(number) => ValueValueView::DWord(number),
            ValueValue::QWord(number) => ValueValueView::QWord(number),
            ValueValue::Binary(bytes) => ValueValueView::Binary(bytes@),
            ValueValue::Unsupported(bytes) => ValueValueView::Unsupported(bytes@),
        }
    }
}

impl ValueValueView {
    /// The raw bytes that a payload holds; none where the payload is a
    /// reading of them.
    pub open spec fn raw_bytes(self) -> Option<Seq<i8>> {
        match self {
            ValueValueView::Binary(bytes) => Some(bytes),
            ValueValueView::Unsupported(bytes) => Some(bytes),
            _ => None,
        }
    }
}

/// How a value is read: which answer of the engine makes its payload.
#[derive(Debug, Clone, Copy, PartialEq, Eq, Structural)]
pub enum Reading {
    Nothing,
    Text,
    TextList,
    Int32,
    Int64,
    Bytes,
    /// The type has no reading; the raw bytes are kept.
    Unread,
}

/// The reading of each type: the three text types as text, both 32-bit
/// types as a 32-bit number, every type that is not named here unread.
pub open spec fn reading_of(t: HiveType) -> Reading {
    match t {
        HiveType::RegNone => Reading::Nothing,
        HiveType::RegSz => Reading::Text,
        HiveType::RegExpandSz => Reading::Text,
        HiveType::RegLink => Reading::Text,
        HiveType::RegBinary => Reading::Bytes,
        HiveType::RegDword => Reading::Int32,
        HiveType::RegDwordBigEndian => Reading::Int32,
        HiveType::RegQword => Reading::Int64,
        HiveType::RegMultiSz => Reading::TextList,
        _ => Reading::Unread,
    }
}

/// The payload of value `v`: the engine is asked for the type, then for the
/// reading that the type calls for. The first failure is the answer.
pub open spec fn payload_of(h: HiveView, v: u64) -> Result<ValueValueView, ErrorView> {
    match value_meta(h, v) {
        Err(e) => Err(e),
        Ok(meta) => match reading_of(meta.0) {
            Reading::Nothing => Ok(ValueValueView::Empty),
            Reading::Text => match value_string(h, v) {
                Ok(text) => Ok(ValueValueView::String(text)),
                Err(e) => Err(e),
            },
            Reading::TextList => match value_strings(h, v) {
                Ok(list) => Ok(ValueValueView::Strings(list)),
                Err(e) => Err(e),
            },
            Reading::Int32 => match value_dword(h, v) {
                Ok(number) => Ok(ValueValueView::DWord(number)),
                Err(e) => Err(e),
            },
            Reading::Int64 => match value_qword(h, v) {
                Ok(number) => Ok(ValueValueView::QWord(number)),
                Err(e) => Err(e),
            },
            Reading::Bytes => match value_raw(h, v) {
                Ok(bytes) => Ok(ValueValueView::Binary(bytes)),
                Err(e) => Err(e),
            },
            Reading::Unread => match value_raw(h, v) {
                Ok(bytes) => Ok(ValueValueView::Unsupported(bytes)),
                Err(e) => Err(e),
            },
        },
    }
}

impl Reading {
    /// The reading that values of type `t` call for.
    pub fn of(t: HiveType) -> (reading: Reading)
        ensures
            reading == reading_of(t),
    {
        match t {
            HiveType::RegNone => Reading::Nothing,
            HiveType::RegSz | HiveType::RegExpandSz | HiveType::RegLink => Reading::Text,
            HiveType::RegBinary => Reading::Bytes,
            HiveType::RegDword | HiveType::RegDwordBigEndian => Reading::Int32,
            HiveType::RegQword => Reading::Int64,
            HiveType::RegMultiSz => Reading::TextList,
            _ => Reading::Unread,
        }
    }
}

impl ValueValue {
    /// Reads the payload of `value` from the session. Raw bytes in the
    /// payload are as many as the engine reported for the value.
    pub fn from_handle(hive: &HiveHandle, value: &ValueHandle) -> (res: Result<ValueValue, Error>)
        ensures
            match payload_of(hive@, value@) {
                Ok(payload) => res matches Ok(v) && v@ == payload,
                Err(e) => res matches Err(err) && err@ == e,
            },
            res matches Ok(v) ==> (v@.raw_bytes() matches Some(bytes) ==> value_meta(
                hive@,
                value@,
            ) matches Ok(meta) && bytes.len() == meta.1),
    {
        let kind = match value.kind(hive) {
            Ok(kind) => kind,
            Err(e) => {
                return Err(e);
            },
        };
        match Reading::of(kind) {
            Reading::Nothing => Ok(ValueValue::Empty),
            Reading::Text => match value.string(hive) {
                Ok(text) => Ok(ValueValue::String(text)),
                Err(e) => Err(e),
            },
            Reading::Bytes => match value.raw(hive) {
                Ok(bytes) => Ok(ValueValue::Binary(bytes)),
                Err(e) => Err(e),
            },
            Reading::Int32 => match value.dword(hive) {
                Ok(number) => Ok(ValueValue::DWord(number)),
                Err(e) => Err(e),
            },
            Reading::Int64 => match value.qword(hive) {
                Ok(number) => Ok(ValueValue::QWord(number)),
                Err(e) => Err(e),
            },
            Reading::TextList => match value.strings(hive) {
                Ok(list) => Ok(ValueValue::Strings(list)),
                Err(e) => Err(e),
            },
            Reading::Unread => match value.raw(hive) {
                Ok(bytes) => Ok(ValueValue::Unsupported(bytes)),
                Err(e) => Err(e),
            },
        }
    }
}

/// A value of a node.
#[derive(Debug)]
pub struct Value {
    /// The payload.
    pub v: ValueValue,
    /// The type.
    pub t: HiveType,
    /// The name.
    pub n: String,
    /// The length of the raw form in bytes, as the engine reports it.
    pub l: usize,
}

/// The mathematical value of a [`Value`].
pub struct ValueView {
    pub v: ValueValueView,
    pub t: HiveType,
    pub n: Seq<char>,
    pub l: usize,
}

impl ValueView {
    /// Whether raw bytes in the payload are as many as the length says.
    pub open spec fn raw_as_long_as_reported(self) -> bool {
        self.v.raw_bytes() matches Some(bytes) ==> bytes.len() == self.l
    }
}

impl View for Value {
    type V = ValueView;

    open spec fn view(&self) -> ValueView {
        ValueView { v: self.v@, t: self.t, n: self.n@, l: self.l }
    }
}

impl DeepView for Value {
    type V = ValueView;

    open spec fn deep_view(&self) -> ValueView {
        self@
    }
}

/// Value `v` in full: type and length first, then the payload, then the
/// name. The first failure is the answer.
pub open spec fn value_of(h: HiveView, v: u64) -> Result<ValueView, ErrorView> {
    match value_meta(h, v) {
        Err(e) => Err(e),
        Ok(meta) => match payload_of(h, v) {
            Err(e) => Err(e),
            Ok(payload) => match value_key(h, v) {
                Err(e) => Err(e),
                Ok(key) => Ok(ValueView { v: payload, t: meta.0, n: key, l: meta.1 }),
            },
        },
    }
}

impl Value {
    /// Reads `value` from the session. Raw bytes in the payload are as
    /// many as the length of the value.
    pub fn from_handle(hive: &HiveHandle, value: &ValueHandle) -> (res: Result<Value, Error>)
        ensures
            match value_of(hive@, value@) {
                Ok(view) => res matches Ok(v) && v@ == view,
                Err(e) => res matches Err(err) && err@ == e,
            },
            res matches Ok(v) ==> v@.raw_as_long_as_reported(),
    {
        let (t, l) = match value.meta(hive) {
            Ok(meta) => meta,
            Err(e) => {
                return Err(e);
            },
        };
        let v = match ValueValue::from_handle(hive, value) {
            Ok(v) => v,
            Err(e) => {
                return Err(e);
            },
        };
        let n = match value.key(hive) {
            Ok(n) => n,
            Err(e) => {
                return Err(e);
            },
        };
        Ok(Value { v, t, n, l })
    }
}

impl Clone for ValueValue {
    fn clone(&self) -> (copy: ValueValue)
        ensures
            copy@ == self@,
    {
        match self {
            ValueValue::Empty => ValueValue::Empty,
            ValueValue::String(text) => ValueValue::String(text.clone()),
            ValueValue::Strings(list) => {
                let mut copy: Vec<String> = Vec::new();
                let mut i: usize = 0;
                while i < list.len()
                    invariant
                        i <= list.len(),
                        copy.len() == i,
                        forall|j: int| 0 <= j < i ==> (#[trigger] copy[j])@ == list[j]@,
                    decreases list.len() - i,
                {
                    copy.push(list[i].clone());
                    i = i + 1;
                }
                assert(copy.deep_view() =~= list.deep_view());
                ValueValue::Strings(copy)
            },
            ValueValue::DWord(number) => ValueValue::DWord(*number),
            ValueValue::QWord(number) => ValueValue::QWord(*number),
            ValueValue::Binary(bytes) => ValueValue::Binary(slice_to_vec(bytes.as_slice())),
            ValueValue::Unsupported(bytes) => ValueValue::Unsupported(
                slice_to_vec(bytes.as_slice()),
            ),
        }
    }
}

impl Clone for Value {
    fn clone(&self) -> (copy: Value)
        ensures
            copy@ == self@,
    {
        Value { v: self.v.clone(), t: self.t, n: self.n.clone(), l: self.l }
    }
}

/// Both 32-bit types are read as a 32-bit number: a value of either type
/// is the number that the engine read from it.
pub proof fn lemma_dword_of_either_order(h: HiveView, v: u64)
    requires
        value_meta(h, v) matches Ok(meta) && (meta.0 == HiveType::RegDword || meta.0
            == HiveType::RegDwordBigEndian),
    ensures
        payload_of(h, v) == Ok::<ValueValueView, ErrorView>(
            ValueValueView::DWord(h.values[v].dword),
        ),
{
}

/// A value of a type without a reading is kept as its raw bytes, with the
/// type and the length as the engine reported them, and the bytes are as
/// many as the length.
pub proof fn lemma_unread_type_keeps_raw(h: HiveView, v: u64)
    requires
        value_meta(h, v) matches Ok(meta) && reading_of(meta.0) == Reading::Unread,
        value_raw(h, v) is Ok,
        value_key(h, v) is Ok,
    ensures
        payload_of(h, v) == Ok::<ValueValueView, ErrorView>(
            ValueValueView::Unsupported(h.values[v].raw->0),
        ),
        ({
            let reported = h.values[v].meta->0;
            value_of(h, v) matches Ok(value) && value.v == ValueValueView::Unsupported(
                h.values[v].raw->0,
            ) && value.t == HiveType::of(reported.0) && value.l == reported.1
                && h.values[v].raw->0.len() == value.l
        }),
{
}

} // verus!
