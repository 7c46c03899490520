use vstd::prelude::*;

use crate::ast::{Header, NamedValue, Values};

verus! {

/// A type record of the human-readable PSF dialect: a name and the kind words
/// attached to it.
#[derive(Debug, Clone, PartialEq)]
pub struct TypeDef {
    pub name: Vec<u8>,
    pub kinds: Vec<Kind>,
}

/// One sweep declaration of the human-readable dialect; index 0 of a sweep
/// list, if present, is the independent variable.
#[derive(Debug, Clone, PartialEq)]
pub struct Sweep {
    pub name: Vec<u8>,
    pub sweep_type: Vec<u8>,
    pub kinds: Vec<Kind>,
}

/// A kind word of the human-readable dialect's type language.
#[derive(Debug, Clone, PartialEq)]
pub enum Kind {
    Float,
    Double,
    Complex,
    Int,
    Byte,
    Long,
    String,
    Array,
    Struct,
    Prop(Prop),
    Star,
}

/// A property block of the human-readable dialect.
#[derive(Debug, Clone, PartialEq)]
pub struct Prop {
    pub values: Vec<NamedValue>,
}

/// One trace entry of the human-readable dialect: a group header carrying a
/// declared member count, or a leaf signal with its units.
#[derive(Debug, Clone, PartialEq)]
pub enum Trace {
    Group { name: Vec<u8>, count: i64 },
    Signal { name: Vec<u8>, units: Vec<u8> },
}

/// One value record of the human-readable dialect: a signal (or group) name
/// and the samples the record carries, one record per sweep point.
#[derive(Debug, Clone, PartialEq)]
pub struct SignalValues {
    pub signal: Vec<u8>,
    pub values: Values,
}

/// The decoded tree of one human-readable PSF file, the shape an external
/// grammar-based front end must produce for cross-format comparison.
#[derive(Debug, Clone, PartialEq)]
pub struct PsfAst {
    pub header: Header,
    pub types: Vec<TypeDef>,
    pub sweeps: Vec<Sweep>,
    pub traces: Vec<Trace>,
    pub values: Vec<SignalValues>,
}

/// The header-and-declarations view of a human-readable file, without its
/// value records.
#[derive(Debug, Clone, PartialEq)]
pub struct Psf {
    pub header: Header,
    pub types: Vec<TypeDef>,
    pub sweeps: Vec<Sweep>,
    pub traces: Vec<Trace>,
}

} // verus!
