use vstd::prelude::*;

verus! {

/// Identifies a [`TypeDef`] in the type section.
#[derive(Debug, Clone, Copy, PartialEq, Eq, Hash, Structural)]
pub struct TypeId(pub u32);

/// Identifies a leaf [`SignalRef`]; the key of the decoded value table.
#[derive(Debug, Clone, Copy, PartialEq, Eq, Hash, Structural)]
pub struct TraceId(pub u32);

/// Identifies a [`TraceGroup`]. Groups share the trace identifier namespace
/// with signals, so a `GroupId` converts into a [`TraceId`] explicitly, but
/// the two are distinct types everywhere else.
#[derive(Debug, Clone, Copy, PartialEq, Eq, Hash, Structural)]
pub struct GroupId(pub u32);

impl From<GroupId> for TraceId {
    /// A group occupies the same identifier namespace as signals for lookup
    /// purposes, so its identifier converts into a trace identifier.
    fn from(value: GroupId) -> (r: TraceId) {
        TraceId(value.0)
    }
}

impl vstd::std_specs::convert::FromSpecImpl<GroupId> for TraceId {
    open spec fn obeys_from_spec() -> bool {
        true
    }

    open spec fn from_spec(v: GroupId) -> TraceId {
        TraceId(v.0)
    }
}

/// A data-type code from the fixed table: 1, 2, 5, 11, 12, 16.
#[derive(Debug, Clone, Copy, PartialEq, Eq, Hash, Structural)]
pub enum DataType {
    Int8,
    String,
    Int32,
    Real,
    Complex,
    Struct,
}

/// The data type a wire code stands for, if any.
pub open spec fn spec_data_type(value: u32) -> Option<DataType> {
    if value == 1 {
        Some(DataType::Int8)
    } else if value == 2 {
        Some(DataType::String)
    } else if value == 5 {
        Some(DataType::Int32)
    } else if value == 11 {
        Some(DataType::Real)
    } else if value == 12 {
        Some(DataType::Complex)
    } else if value == 16 {
        Some(DataType::Struct)
    } else {
        None
    }
}

/// The wire code of a data type, the inverse of [`spec_data_type`].
pub open spec fn data_type_code(dt: DataType) -> u32 {
    match dt {
        DataType::Int8 => 1,
        DataType::String => 2,
        DataType::Int32 => 5,
        DataType::Real => 11,
        DataType::Complex => 12,
        DataType::Struct => 16,
    }
}

impl DataType {
    /// The wire code this data type is written as.
    pub fn code(self) -> (r: u32)
        ensures
            r == data_type_code(self),
    {
        match self {
            DataType::Int8 => 1,
            DataType::String => 2,
            DataType::Int32 => 5,
            DataType::Real => 11,
            DataType::Complex => 12,
            DataType::Struct => 16,
        }
    }

    /// Decodes a data-type code; a code outside the fixed table is a decode
    /// failure, never a panic.
    pub fn from_u32(value: u32) -> (r: Result<DataType, crate::errors::PsfError>)
        ensures
            r == match spec_data_type(value) {
                Some(t) => Ok::<DataType, crate::errors::PsfError>(t),
                None => Err::<DataType, crate::errors::PsfError>(
                    (crate::errors::PsfError::UnknownDataType { got: value }),
                ),
            },
    {
        match value {
            1 => Ok(DataType::Int8),
            2 => Ok(DataType::String),
            5 => Ok(DataType::Int32),
            11 => Ok(DataType::Real),
            12 => Ok(DataType::Complex),
            16 => Ok(DataType::Struct),
            _ => Err(crate::errors::PsfError::UnknownDataType { got: value }),
        }
    }
}

/// A header or property value. A `Real` carries the raw bit pattern of the
/// IEEE-754 double that was on the wire.
#[derive(Debug, Clone, PartialEq)]
pub enum Value {
    Int(i64),
    Real(u64),
    Str(Vec<u8>),
    NaN,
}

/// The model of a [`Value`].
pub enum SpecValue {
    Int(i64),
    Real(u64),
    Str(Seq<u8>),
    NaN,
}

impl View for Value {
    type V = SpecValue;

    open spec fn view(&self) -> SpecValue {
        match self {
            Value::Int(v) => SpecValue::Int(*v),
            Value::Real(v) => SpecValue::Real(*v),
            Value::Str(v) => SpecValue::Str(v@),
            Value::NaN => SpecValue::NaN,
        }
    }
}

impl Value {
    /// The integer this value holds.
    pub fn as_int(&self) -> (r: i64)
        requires
            self is Int,
        ensures
            self@ == SpecValue::Int(r),
    {
        match self {
            Value::Int(v) => *v,
            _ => {
                proof {
                    assert(false);
                }
                0
            },
        }
    }

    /// The raw bit pattern of the double this value holds.
    pub fn as_real(&self) -> (r: u64)
        requires
            self is Real,
        ensures
            self@ == SpecValue::Real(r),
    {
        match self {
            Value::Real(v) => *v,
            _ => {
                proof {
                    assert(false);
                }
                0
            },
        }
    }

    /// The string bytes this value holds.
    pub fn str(&self) -> (r: &Vec<u8>)
        requires
            self is Str,
        ensures
            self@ == SpecValue::Str(r@),
    {
        match self {
            Value::Str(v) => v,
            _ => {
                proof {
                    assert(false);
                }
                unreached()
            },
        }
    }
}

/// One name/value record from the header section or a property list.
#[derive(Debug, Clone, PartialEq)]
pub struct NamedValue {
    pub name: Vec<u8>,
    pub value: Value,
}

/// The model of a [`NamedValue`].
pub struct SpecNamedValue {
    pub name: Seq<u8>,
    pub value: SpecValue,
}

impl View for NamedValue {
    type V = SpecNamedValue;

    open spec fn view(&self) -> SpecNamedValue {
        SpecNamedValue { name: self.name@, value: self.value@ }
    }
}

/// An ordered sequence of name/value metadata records, order-significant and
/// not deduplicated.
#[derive(Debug, Clone, PartialEq)]
pub struct Properties {
    pub values: Vec<NamedValue>,
}

impl View for Properties {
    type V = Seq<SpecNamedValue>;

    open spec fn view(&self) -> Seq<SpecNamedValue> {
        nvs_view(self.values@)
    }
}

/// The header section: later records with the same name overwrite earlier
/// ones, so a lookup takes the last match.
#[derive(Debug, Clone, PartialEq)]
pub struct Header {
    pub values: Vec<NamedValue>,
}

impl View for Header {
    type V = Seq<SpecNamedValue>;

    open spec fn view(&self) -> Seq<SpecNamedValue> {
        nvs_view(self.values@)
    }
}

/// The value of the last header record named `key`, if any.
pub open spec fn spec_header_lookup(vals: Seq<SpecNamedValue>, key: Seq<u8>) -> Option<SpecValue>
    decreases vals.len(),
{
    if vals.len() == 0 {
        None
    } else if vals.last().name == key {
        Some(vals.last().value)
    } else {
        spec_header_lookup(vals.drop_last(), key)
    }
}

/// Whether two byte strings hold the same bytes.
pub fn bytes_eq(a: &[u8], b: &[u8]) -> (r: bool)
    ensures
        r <==> a@ == b@,
{
    if a.len() != b.len() {
        proof {
            assert(a@.len() != b@.len());
        }
        return false;
    }
    let n = a.len();
    let mut i: usize = 0;
    while i < n
        invariant
            i <= n,
            n == a@.len(),
            n == b@.len(),
            forall|j: int| 0 <= j < i ==> a@[j] == b@[j],
        decreases n - i,
    {
        if a[i] != b[i] {
            return false;
        }
        i = i + 1;
    }
    proof {
        assert(a@ =~= b@);
    }
    true
}

impl Header {
    /// The value stored under `key`, taking the last record when the header
    /// listed the key more than once.
    pub fn get(&self, key: &[u8]) -> (r: Option<&Value>)
        ensures
            match r {
                Some(v) => spec_header_lookup(self@, key@) == Some(v@),
                None => spec_header_lookup(self@, key@) is None,
            },
    {
        let n = self.values.len();
        proof {
            assert(self@.take(n as int) =~= self@);
        }
        let mut i: usize = n;
        while i > 0
            invariant
                i <= n,
                n == self.values@.len(),
                self@.len() == n,
                spec_header_lookup(self@, key@) == spec_header_lookup(self@.take(i as int), key@),
            decreases i,
        {
            i = i - 1;
            proof {
                assert(self@.take(i + 1).drop_last() =~= self@.take(i as int));
                assert(self@.take(i + 1).last() == self@[i as int]);
            }
            if bytes_eq(self.values[i].name.as_slice(), key) {
                return Some(&self.values[i].value);
            }
        }
        proof {
            assert(self@.take(0) =~= Seq::<SpecNamedValue>::empty());
        }
        None
    }

    /// The integer stored under `key`: `Some` exactly when the key's last
    /// record holds an `Int`.
    pub fn get_int(&self, key: &[u8]) -> (r: Option<i64>)
        ensures
            match r {
                Some(v) => spec_header_lookup(self@, key@) == Some(SpecValue::Int(v)),
                None => forall|v: i64|
                    spec_header_lookup(self@, key@) != Some(SpecValue::Int(v)),
            },
    {
        match self.get(key) {
            Some(v) => match v {
                Value::Int(i) => Some(*i),
                _ => None,
            },
            None => None,
        }
    }
}

/// One record of the type section.
#[derive(Debug, Clone, PartialEq)]
pub struct TypeDef {
    pub id: TypeId,
    pub name: Vec<u8>,
    pub data_type: DataType,
    pub properties: Properties,
}

/// The model of a [`TypeDef`].
pub struct SpecTypeDef {
    pub id: TypeId,
    pub name: Seq<u8>,
    pub data_type: DataType,
    pub properties: Seq<SpecNamedValue>,
}

impl View for TypeDef {
    type V = SpecTypeDef;

    open spec fn view(&self) -> SpecTypeDef {
        SpecTypeDef {
            id: self.id,
            name: self.name@,
            data_type: self.data_type,
            properties: self.properties@,
        }
    }
}

/// The type section: every signal's `type_id` must resolve here. A lookup
/// takes the last record with the asked-for identifier.
#[derive(Debug, Clone, PartialEq)]
pub struct Types {
    pub types: Vec<TypeDef>,
}

impl View for Types {
    type V = Seq<SpecTypeDef>;

    open spec fn view(&self) -> Seq<SpecTypeDef> {
        types_view(self.types@)
    }
}

/// The definition of the last type record with identifier `id`, if any.
pub open spec fn spec_types_lookup(ts: Seq<SpecTypeDef>, id: TypeId) -> Option<SpecTypeDef>
    decreases ts.len(),
{
    if ts.len() == 0 {
        None
    } else if ts.last().id == id {
        Some(ts.last())
    } else {
        spec_types_lookup(ts.drop_last(), id)
    }
}

impl Types {
    /// The type record `id` resolves to, if any.
    pub fn get(&self, id: TypeId) -> (r: Option<&TypeDef>)
        ensures
            match r {
                Some(t) => spec_types_lookup(self@, id) == Some(t@),
                None => spec_types_lookup(self@, id) is None,
            },
    {
        let n = self.types.len();
        proof {
            assert(self@.take(n as int) =~= self@);
        }
        let mut i: usize = n;
        while i > 0
            invariant
                i <= n,
                n == self.types@.len(),
                self@.len() == n,
                spec_types_lookup(self@, id) == spec_types_lookup(self@.take(i as int), id),
            decreases i,
        {
            i = i - 1;
            proof {
                assert(self@.take(i + 1).drop_last() =~= self@.take(i as int));
                assert(self@.take(i + 1).last() == self@[i as int]);
            }
            if self.types[i].id == id {
                return Some(&self.types[i]);
            }
        }
        proof {
            assert(self@.take(0) =~= Seq::<SpecTypeDef>::empty());
        }
        None
    }
}

/// A leaf trace entry: one signal, with the type its samples decode under.
#[derive(Debug, Clone, PartialEq)]
pub struct SignalRef {
    pub id: TraceId,
    pub name: Vec<u8>,
    pub type_id: TypeId,
    pub properties: Properties,
}

/// The model of a [`SignalRef`].
pub struct SpecSignalRef {
    pub id: TraceId,
    pub name: Seq<u8>,
    pub type_id: TypeId,
    pub properties: Seq<SpecNamedValue>,
}

impl View for SignalRef {
    type V = SpecSignalRef;

    open spec fn view(&self) -> SpecSignalRef {
        SpecSignalRef {
            id: self.id,
            name: self.name@,
            type_id: self.type_id,
            properties: self.properties@,
        }
    }
}

/// A named collection of signals sharing one declared count; groups do not
/// nest, and `signals.len() == count` holds for every decoded group.
#[derive(Debug, Clone, PartialEq)]
pub struct TraceGroup {
    pub name: Vec<u8>,
    pub count: u32,
    pub id: GroupId,
    pub signals: Vec<SignalRef>,
}

/// The model of a [`TraceGroup`].
pub struct SpecTraceGroup {
    pub name: Seq<u8>,
    pub count: u32,
    pub id: GroupId,
    pub signals: Seq<SpecSignalRef>,
}

impl View for TraceGroup {
    type V = SpecTraceGroup;

    open spec fn view(&self) -> SpecTraceGroup {
        SpecTraceGroup {
            name: self.name@,
            count: self.count,
            id: self.id,
            signals: sigs_view(self.signals@),
        }
    }
}

/// One entry of the trace section, in file order; the order is load-bearing
/// because it fixes the byte-offset assignment of the value decoder.
#[derive(Debug, Clone, PartialEq)]
pub enum Trace {
    Group(TraceGroup),
    Signal(SignalRef),
}

/// The model of a [`Trace`].
pub enum SpecTrace {
    Group(SpecTraceGroup),
    Signal(SpecSignalRef),
}

impl View for Trace {
    type V = SpecTrace;

    open spec fn view(&self) -> SpecTrace {
        match self {
            Trace::Group(g) => SpecTrace::Group(g@),
            Trace::Signal(s) => SpecTrace::Signal(s@),
        }
    }
}

impl Trace {
    /// The group this trace holds.
    pub fn group(&self) -> (r: &TraceGroup)
        requires
            self is Group,
        ensures
            self@ == SpecTrace::Group(r@),
    {
        match self {
            Trace::Group(g) => g,
            _ => {
                proof {
                    assert(false);
                }
                unreached()
            },
        }
    }

    /// The signal this trace holds.
    pub fn signal(&self) -> (r: &SignalRef)
        requires
            self is Signal,
        ensures
            self@ == SpecTrace::Signal(r@),
    {
        match self {
            Trace::Signal(s) => s,
            _ => {
                proof {
                    assert(false);
                }
                unreached()
            },
        }
    }
}

/// One signal's decoded samples: raw IEEE-754 bit patterns, one per sample
/// for a `Real` signal and a (real, imaginary) pair per sample for `Complex`.
#[derive(Debug, Clone, PartialEq)]
pub enum Values {
    Complex(Vec<(u64, u64)>),
    Real(Vec<u64>),
}

/// The model of a [`Values`].
pub enum SpecValues {
    Complex(Seq<(u64, u64)>),
    Real(Seq<u64>),
}

impl View for Values {
    type V = SpecValues;

    open spec fn view(&self) -> SpecValues {
        match self {
            Values::Complex(v) => SpecValues::Complex(v@),
            Values::Real(v) => SpecValues::Real(v@),
        }
    }
}

impl Values {
    /// The real sample vector this holds.
    pub fn as_real(&self) -> (r: &Vec<u64>)
        requires
            self is Real,
        ensures
            self@ == SpecValues::Real(r@),
    {
        match self {
            Values::Real(v) => v,
            _ => {
                proof {
                    assert(false);
                }
                unreached()
            },
        }
    }

    /// The complex sample vector this holds.
    pub fn complex(&self) -> (r: &Vec<(u64, u64)>)
        requires
            self is Complex,
        ensures
            self@ == SpecValues::Complex(r@),
    {
        match self {
            Values::Complex(v) => v,
            _ => {
                proof {
                    assert(false);
                }
                unreached()
            },
        }
    }
}

/// The decoded value table: one entry per leaf signal, keyed by trace
/// identifier, in flattened trace order. The decoder rejects duplicate
/// identifiers, so a lookup takes the first match.
#[derive(Debug, Clone, PartialEq)]
pub struct SignalValues {
    pub values: Vec<(TraceId, Values)>,
}

/// The models of a sequence of keyed sample vectors, elementwise.
pub open spec fn vals_view(v: Seq<(TraceId, Values)>) -> Seq<(TraceId, SpecValues)> {
    Seq::new(v.len(), |i: int| (v[i].0, v[i].1@))
}

impl View for SignalValues {
    type V = Seq<(TraceId, SpecValues)>;

    open spec fn view(&self) -> Seq<(TraceId, SpecValues)> {
        vals_view(self.values@)
    }
}

/// The sample vector of the first entry keyed `id`, if any.
pub open spec fn spec_values_lookup(vals: Seq<(TraceId, SpecValues)>, id: TraceId) -> Option<
    SpecValues,
>
    decreases vals.len(),
{
    if vals.len() == 0 {
        None
    } else if vals.first().0 == id {
        Some(vals.first().1)
    } else {
        spec_values_lookup(vals.drop_first(), id)
    }
}

impl SignalValues {
    /// The sample vector decoded for trace `id`, if any.
    pub fn get(&self, id: TraceId) -> (r: Option<&Values>)
        ensures
            match r {
                Some(v) => spec_values_lookup(self@, id) == Some(v@),
                None => spec_values_lookup(self@, id) is None,
            },
    {
        let n = self.values.len();
        proof {
            assert(self@.skip(0) =~= self@);
        }
        let mut i: usize = 0;
        while i < n
            invariant
                i <= n,
                n == self.values@.len(),
                self@.len() == n,
                spec_values_lookup(self@, id) == spec_values_lookup(self@.skip(i as int), id),
            decreases n - i,
        {
            proof {
                assert(self@.skip(i as int).first() == self@[i as int]);
                assert(self@.skip(i as int).drop_first() =~= self@.skip(i + 1));
            }
            if self.values[i].0 == id {
                return Some(&self.values[i].1);
            }
            i = i + 1;
        }
        proof {
            assert(self@.skip(n as int) =~= Seq::<(TraceId, SpecValues)>::empty());
        }
        None
    }
}

/// The immutable root of one decoded binary PSF file.
#[derive(Debug, Clone, PartialEq)]
pub struct PsfAst {
    pub header: Header,
    pub types: Types,
    pub sweeps: Vec<SignalRef>,
    pub traces: Vec<Trace>,
    pub values: SignalValues,
}

/// The model of a [`PsfAst`].
pub struct SpecPsfAst {
    pub header: Seq<SpecNamedValue>,
    pub types: Seq<SpecTypeDef>,
    pub sweeps: Seq<SpecSignalRef>,
    pub traces: Seq<SpecTrace>,
    pub values: Seq<(TraceId, SpecValues)>,
}

impl View for PsfAst {
    type V = SpecPsfAst;

    open spec fn view(&self) -> SpecPsfAst {
        SpecPsfAst {
            header: self.header@,
            types: self.types@,
            sweeps: sigs_view(self.sweeps@),
            traces: traces_view(self.traces@),
            values: self.values@,
        }
    }
}

impl PsfAst {
    /// An empty tree, the state before any section has been decoded.
    pub fn new() -> (r: PsfAst)
        ensures
            r.header@ == Seq::<SpecNamedValue>::empty(),
            r.types@ == Seq::<SpecTypeDef>::empty(),
            r.sweeps@ == Seq::<SignalRef>::empty(),
            r.traces@ == Seq::<Trace>::empty(),
            r.values@ == Seq::<(TraceId, SpecValues)>::empty(),
    {
        let r = PsfAst {
            header: Header { values: Vec::new() },
            types: Types { types: Vec::new() },
            sweeps: Vec::new(),
            traces: Vec::new(),
            values: SignalValues { values: Vec::new() },
        };
        proof {
            assert(r.header@ =~= Seq::<SpecNamedValue>::empty());
            assert(r.types@ =~= Seq::<SpecTypeDef>::empty());
            assert(r.values@ =~= Seq::<(TraceId, SpecValues)>::empty());
        }
        r
    }
}


/// The models of a sequence of named values, elementwise.
pub open spec fn nvs_view(v: Seq<NamedValue>) -> Seq<SpecNamedValue> {
    Seq::new(v.len(), |i: int| v[i]@)
}

/// The models of a sequence of signal references, elementwise.
pub open spec fn sigs_view(v: Seq<SignalRef>) -> Seq<SpecSignalRef> {
    Seq::new(v.len(), |i: int| v[i]@)
}

/// The models of a sequence of type records, elementwise.
pub open spec fn types_view(v: Seq<TypeDef>) -> Seq<SpecTypeDef> {
    Seq::new(v.len(), |i: int| v[i]@)
}

/// The models of a sequence of traces, elementwise.
pub open spec fn traces_view(v: Seq<Trace>) -> Seq<SpecTrace> {
    Seq::new(v.len(), |i: int| v[i]@)
}

} // verus!
