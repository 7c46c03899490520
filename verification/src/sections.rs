use vstd::prelude::*;

use crate::ast::{
    spec_data_type, DataType, GroupId, Header, NamedValue, Properties, SignalRef, SpecNamedValue,
    SpecSignalRef, SpecTrace, SpecTraceGroup, SpecTypeDef, SpecValue, Trace, TraceGroup, TraceId,
    TypeDef, TypeId, Types, Value,
};
use crate::errors::{step_view, PsfError};
use crate::reader::{be_u32_at, be_u64_at, parse_string, read_f64, read_u32, spec_parse_string};
use crate::toc::TocEntry;

verus! {

/// Record tag codes: a bare signal reference.
pub const TAG_SIGNAL: u32 = 16;

/// Record tag codes: a trace group.
pub const TAG_GROUP: u32 = 17;

/// Record tag codes: the prolog of the value block.
pub const TAG_VALUE_BLOCK: u32 = 20;

/// Record tag codes: the container prolog of the type and trace sections.
pub const TAG_CONTAINER: u32 = 22;

/// Record tag codes: a named value holding a string.
pub const TAG_STRING: u32 = 33;

/// Record tag codes: a named value holding a signed 32-bit integer.
pub const TAG_INT: u32 = 34;

/// Record tag codes: a named value holding a double.
pub const TAG_REAL: u32 = 35;

/// The 32-bit wire word `v` read as a signed 32-bit integer widened to 64
/// bits.
pub open spec fn spec_sext32(v: u32) -> i64 {
    if v < 0x80000000 {
        v as i64
    } else {
        (v - 0x100000000) as i64
    }
}

/// The 32-bit word `v` reinterpreted as a signed 32-bit integer and widened
/// to 64 bits.
pub fn sext32(v: u32) -> (r: i64)
    ensures
        r == spec_sext32(v),
{
    if v < 0x80000000 {
        v as i64
    } else {
        (v as i64) - 0x100000000
    }
}

/// The model of [`parse_named_value`]: a tag word, a padded-string name, then
/// a payload the tag selects — a string for 33, a sign-extended integer for
/// 34, a double for 35; any other tag is a decode failure reported after the
/// name has been read, as the wire layout demands.
pub open spec fn spec_parse_named_value(s: Seq<u8>, pos: int) -> Result<
    (SpecNamedValue, int),
    PsfError,
> {
    if pos + 4 > s.len() {
        Err(PsfError::OutOfBounds { at: pos as usize, want: 4 })
    } else {
        let tag = be_u32_at(s, pos);
        match spec_parse_string(s, pos + 4) {
            Err(e) => Err(e),
            Ok((name, p1)) => if tag == TAG_STRING {
                match spec_parse_string(s, p1) {
                    Err(e) => Err(e),
                    Ok((v, p2)) => Ok(
                        (SpecNamedValue { name, value: SpecValue::Str(v) }, p2),
                    ),
                }
            } else if tag == TAG_INT {
                if p1 + 4 > s.len() {
                    Err(PsfError::OutOfBounds { at: p1 as usize, want: 4 })
                } else {
                    Ok(
                        (
                            SpecNamedValue {
                                name,
                                value: SpecValue::Int(spec_sext32(be_u32_at(s, p1))),
                            },
                            p1 + 4,
                        ),
                    )
                }
            } else if tag == TAG_REAL {
                if p1 + 8 > s.len() {
                    Err(PsfError::OutOfBounds { at: p1 as usize, want: 8 })
                } else {
                    Ok(
                        (
                            SpecNamedValue { name, value: SpecValue::Real(be_u64_at(s, p1)) },
                            p1 + 8,
                        ),
                    )
                }
            } else {
                Err(PsfError::UnexpectedTag { expected: TAG_STRING, got: tag, at: pos as usize })
            },
        }
    }
}

/// A successfully parsed padded string ends after its own bytes, within the
/// buffer.
pub proof fn lemma_string_advances(s: Seq<u8>, pos: int, name: Seq<u8>, p2: int)
    requires
        pos >= 0,
        spec_parse_string(s, pos) == Ok::<(Seq<u8>, int), PsfError>((name, p2)),
    ensures
        pos + 4 <= p2 <= s.len(),
{
    let l = be_u32_at(s, pos) as int;
    assert(l % 4 >= 0 && l % 4 < 4);
}

/// A successfully parsed named value consumes at least twelve bytes and stays
/// within the buffer.
pub proof fn lemma_named_value_advances(s: Seq<u8>, pos: int, nv: SpecNamedValue, p2: int)
    requires
        pos >= 0,
        spec_parse_named_value(s, pos) == Ok::<(SpecNamedValue, int), PsfError>((nv, p2)),
    ensures
        pos + 12 <= p2 <= s.len(),
{
    let tag = be_u32_at(s, pos);
    match spec_parse_string(s, pos + 4) {
        Ok((name, p1)) => {
            lemma_string_advances(s, pos + 4, name, p1);
            if tag == TAG_STRING {
                match spec_parse_string(s, p1) {
                    Ok((v, pv)) => {
                        lemma_string_advances(s, p1, v, pv);
                    },
                    Err(_) => {},
                }
            }
        },
        Err(_) => {},
    }
}

/// The model of [`parse_properties`]: named-value records consumed greedily
/// while more than four bytes remain and the next tag is 33, 34 or 35.
pub open spec fn spec_parse_properties(s: Seq<u8>, pos: int) -> Result<
    (Seq<SpecNamedValue>, int),
    PsfError,
>
    decreases s.len() - pos,
{
    if !(pos >= 0 && s.len() - pos > 4 && TAG_STRING <= be_u32_at(s, pos) <= TAG_REAL) {
        Ok((Seq::empty(), pos))
    } else {
        match spec_parse_named_value(s, pos) {
            Err(e) => Err(e),
            Ok((nv, p2)) => if pos < p2 <= s.len() {
                match spec_parse_properties(s, p2) {
                    Err(e) => Err(e),
                    Ok((rest, p3)) => Ok((seq![nv] + rest, p3)),
                }
            } else {
                // A parsed record always moves the cursor forward within the
                // buffer, so this arm is unreachable.
                Err(PsfError::UnsupportedLayout)
            },
        }
    }
}

/// A successfully parsed property list only moves forward, within the buffer.
pub proof fn lemma_properties_advance(s: Seq<u8>, pos: int, props: Seq<SpecNamedValue>, p2: int)
    requires
        pos >= 0,
        pos <= s.len(),
        spec_parse_properties(s, pos) == Ok::<(Seq<SpecNamedValue>, int), PsfError>((props, p2)),
    ensures
        pos <= p2 <= s.len(),
    decreases s.len() - pos,
{
    if pos >= 0 && s.len() - pos > 4 && TAG_STRING <= be_u32_at(s, pos) <= TAG_REAL {
        match spec_parse_named_value(s, pos) {
            Ok((nv, pm)) => {
                lemma_named_value_advances(s, pos, nv, pm);
                match spec_parse_properties(s, pm) {
                    Ok((rest, p3)) => {
                        lemma_properties_advance(s, pm, rest, p3);
                    },
                    Err(_) => {},
                }
            },
            Err(_) => {},
        }
    }
}

/// The model of [`parse_signal_ref`]: an identifier, a name, a type
/// identifier, then a property list.
pub open spec fn spec_parse_signal_ref(s: Seq<u8>, pos: int) -> Result<
    (SpecSignalRef, int),
    PsfError,
> {
    if pos + 4 > s.len() {
        Err(PsfError::OutOfBounds { at: pos as usize, want: 4 })
    } else {
        let id = be_u32_at(s, pos);
        match spec_parse_string(s, pos + 4) {
            Err(e) => Err(e),
            Ok((name, p1)) => if p1 + 4 > s.len() {
                Err(PsfError::OutOfBounds { at: p1 as usize, want: 4 })
            } else {
                let tid = be_u32_at(s, p1);
                match spec_parse_properties(s, p1 + 4) {
                    Err(e) => Err(e),
                    Ok((props, p2)) => Ok(
                        (
                            SpecSignalRef {
                                id: TraceId(id),
                                name,
                                type_id: TypeId(tid),
                                properties: props,
                            },
                            p2,
                        ),
                    ),
                }
            },
        }
    }
}

/// A successfully parsed signal reference consumes at least twelve bytes and
/// stays within the buffer.
pub proof fn lemma_signal_ref_advances(s: Seq<u8>, pos: int, sig: SpecSignalRef, p2: int)
    requires
        pos >= 0,
        spec_parse_signal_ref(s, pos) == Ok::<(SpecSignalRef, int), PsfError>((sig, p2)),
    ensures
        pos + 12 <= p2 <= s.len(),
{
    match spec_parse_string(s, pos + 4) {
        Ok((name, p1)) => {
            lemma_string_advances(s, pos + 4, name, p1);
            match spec_parse_properties(s, p1 + 4) {
                Ok((props, pp)) => {
                    lemma_properties_advance(s, p1 + 4, props, pp);
                },
                Err(_) => {},
            }
        },
        Err(_) => {},
    }
}

/// The model of the member list of a group: exactly `count` signal
/// references, each prefixed by tag 16.
pub open spec fn spec_parse_group_signals(s: Seq<u8>, pos: int, count: int) -> Result<
    (Seq<SpecSignalRef>, int),
    PsfError,
>
    decreases count,
{
    if count <= 0 {
        Ok((Seq::empty(), pos))
    } else if pos + 4 > s.len() {
        Err(PsfError::OutOfBounds { at: pos as usize, want: 4 })
    } else {
        let tag = be_u32_at(s, pos);
        if tag != TAG_SIGNAL {
            Err(PsfError::UnexpectedTag { expected: TAG_SIGNAL, got: tag, at: pos as usize })
        } else {
            match spec_parse_signal_ref(s, pos + 4) {
                Err(e) => Err(e),
                Ok((sig, p1)) => match spec_parse_group_signals(s, p1, count - 1) {
                    Err(e) => Err(e),
                    Ok((rest, p2)) => Ok((seq![sig] + rest, p2)),
                },
            }
        }
    }
}

/// The model of [`parse_group`]: an identifier, a name, a declared member
/// count, then exactly that many signal references. The decoded member list
/// always has exactly the declared count of entries.
pub open spec fn spec_parse_group(s: Seq<u8>, pos: int) -> Result<(SpecTraceGroup, int), PsfError> {
    if pos + 4 > s.len() {
        Err(PsfError::OutOfBounds { at: pos as usize, want: 4 })
    } else {
        let id = be_u32_at(s, pos);
        match spec_parse_string(s, pos + 4) {
            Err(e) => Err(e),
            Ok((name, p1)) => if p1 + 4 > s.len() {
                Err(PsfError::OutOfBounds { at: p1 as usize, want: 4 })
            } else {
                let count = be_u32_at(s, p1);
                match spec_parse_group_signals(s, p1 + 4, count as int) {
                    Err(e) => Err(e),
                    Ok((signals, p2)) => Ok(
                        (SpecTraceGroup { name, count, id: GroupId(id), signals }, p2),
                    ),
                }
            },
        }
    }
}

/// The model of [`parse_trace_item`]: tag 16 introduces a bare signal, tag 17
/// a group; anything else is a decode failure. Groups do not nest: a group
/// member must be introduced by tag 16, so a group inside a group fails.
pub open spec fn spec_parse_trace_item(s: Seq<u8>, pos: int) -> Result<(SpecTrace, int), PsfError> {
    if pos + 4 > s.len() {
        Err(PsfError::OutOfBounds { at: pos as usize, want: 4 })
    } else {
        let tag = be_u32_at(s, pos);
        if tag == TAG_SIGNAL {
            match spec_parse_signal_ref(s, pos + 4) {
                Err(e) => Err(e),
                Ok((sig, p1)) => Ok((SpecTrace::Signal(sig), p1)),
            }
        } else if tag == TAG_GROUP {
            match spec_parse_group(s, pos + 4) {
                Err(e) => Err(e),
                Ok((g, p1)) => Ok((SpecTrace::Group(g), p1)),
            }
        } else {
            Err(PsfError::UnexpectedTag { expected: TAG_SIGNAL, got: tag, at: pos as usize })
        }
    }
}

/// The model of [`parse_type_item`]: tag 16, an identifier, a name, an
/// ignored array-flag word, a data-type code from the fixed table, then a
/// property list.
pub open spec fn spec_parse_type_item(s: Seq<u8>, pos: int) -> Result<(SpecTypeDef, int), PsfError> {
    if pos + 4 > s.len() {
        Err(PsfError::OutOfBounds { at: pos as usize, want: 4 })
    } else {
        let tag = be_u32_at(s, pos);
        if tag != TAG_SIGNAL {
            Err(PsfError::UnexpectedTag { expected: TAG_SIGNAL, got: tag, at: pos as usize })
        } else if pos + 8 > s.len() {
            Err(PsfError::OutOfBounds { at: (pos + 4) as usize, want: 4 })
        } else {
            let id = be_u32_at(s, pos + 4);
            match spec_parse_string(s, pos + 8) {
                Err(e) => Err(e),
                Ok((name, p1)) => if p1 + 4 > s.len() {
                    Err(PsfError::OutOfBounds { at: p1 as usize, want: 4 })
                } else if p1 + 8 > s.len() {
                    Err(PsfError::OutOfBounds { at: (p1 + 4) as usize, want: 4 })
                } else {
                    let code = be_u32_at(s, p1 + 4);
                    match spec_data_type(code) {
                        None => Err(PsfError::UnknownDataType { got: code }),
                        Some(dt) => match spec_parse_properties(s, p1 + 8) {
                            Err(e) => Err(e),
                            Ok((props, p2)) => Ok(
                                (
                                    SpecTypeDef {
                                        id: TypeId(id),
                                        name,
                                        data_type: dt,
                                        properties: props,
                                    },
                                    p2,
                                ),
                            ),
                        },
                    }
                },
            }
        }
    }
}


/// Whether the property loop continues: more than four bytes remain and the
/// next tag word is 33, 34 or 35.
fn props_continue(data: &[u8], p: usize) -> (r: bool)
    requires
        p <= data@.len(),
    ensures
        r == (data@.len() - p > 4 && TAG_STRING <= be_u32_at(data@, p as int) <= TAG_REAL),
{
    if data.len() - p <= 4 {
        return false;
    }
    let tag = crate::reader::word_at(data, p);
    TAG_STRING <= tag && tag <= TAG_REAL
}

/// Decodes one named-value record: a tag word, a padded-string name, then the
/// payload the tag selects.
pub fn parse_named_value(data: &[u8], pos: usize) -> (r: Result<(NamedValue, usize), PsfError>)
    ensures
        step_view(r) == spec_parse_named_value(data@, pos as int),
{
    proof {
        vstd::slice::axiom_spec_len::<u8>(data);
    }
    let (tag, p0) = match read_u32(data, pos) {
        Ok(v) => v,
        Err(e) => {
            return Err(e);
        },
    };
    let (name, p1) = match parse_string(data, p0) {
        Ok(v) => v,
        Err(e) => {
            return Err(e);
        },
    };
    if tag == TAG_STRING {
        let (v, p2) = match parse_string(data, p1) {
            Ok(v) => v,
            Err(e) => {
                return Err(e);
            },
        };
        Ok((NamedValue { name, value: Value::Str(v) }, p2))
    } else if tag == TAG_INT {
        let (v, p2) = match read_u32(data, p1) {
            Ok(v) => v,
            Err(e) => {
                return Err(e);
            },
        };
        Ok((NamedValue { name, value: Value::Int(sext32(v)) }, p2))
    } else if tag == TAG_REAL {
        let (v, p2) = match read_f64(data, p1) {
            Ok(v) => v,
            Err(e) => {
                return Err(e);
            },
        };
        Ok((NamedValue { name, value: Value::Real(v) }, p2))
    } else {
        Err(PsfError::UnexpectedTag { expected: TAG_STRING, got: tag, at: pos })
    }
}

/// Decodes a property list: named-value records consumed greedily while the
/// next tag announces one.
pub fn parse_properties(data: &[u8], pos: usize) -> (r: Result<(Properties, usize), PsfError>)
    ensures
        step_view(r) == spec_parse_properties(data@, pos as int),
{
    proof {
        vstd::slice::axiom_spec_len::<u8>(data);
    }
    if pos > data.len() {
        proof {
            assert(spec_parse_properties(data@, pos as int) == Ok::<(Seq<SpecNamedValue>, int),
                PsfError,
            >((Seq::empty(), pos as int)));
        }
        let values: Vec<NamedValue> = Vec::new();
        proof {
            assert(crate::ast::nvs_view(values@) =~= Seq::<SpecNamedValue>::empty());
        }
        return Ok((Properties { values }, pos));
    }
    let dlen = data.len();
    let mut values: Vec<NamedValue> = Vec::new();
    let mut p = pos;
    proof {
        assert(crate::ast::nvs_view(values@) =~= Seq::<SpecNamedValue>::empty());
        if let Ok((rest, e)) = spec_parse_properties(data@, pos as int) {
            assert(Seq::<SpecNamedValue>::empty() + rest =~= rest);
        }
    }
    while props_continue(data, p)
        invariant
            p <= dlen,
            dlen == data@.len(),
            match spec_parse_properties(data@, p as int) {
                Ok((rest, e)) => spec_parse_properties(data@, pos as int) == Ok::<
                    (Seq<SpecNamedValue>, int),
                    PsfError,
                >((crate::ast::nvs_view(values@) + rest, e)),
                Err(e) => spec_parse_properties(data@, pos as int) == Err::<
                    (Seq<SpecNamedValue>, int),
                    PsfError,
                >(e),
            },
        decreases dlen - p,
    {
        let (nv, p2) = match parse_named_value(data, p) {
            Ok(v) => v,
            Err(e) => {
                return Err(e);
            },
        };
        proof {
            lemma_named_value_advances(data@, p as int, nv@, p2 as int);
        }
        let ghost pre = values@;
        values.push(nv);
        proof {
            assert(crate::ast::nvs_view(values@) =~= crate::ast::nvs_view(pre) + seq![nv@]);
            if let Ok((rest2, e2)) = spec_parse_properties(data@, p2 as int) {
                assert(crate::ast::nvs_view(pre) + (seq![nv@] + rest2) =~= (crate::ast::nvs_view(
                    pre,
                ) + seq![nv@]) + rest2);
            }
        }
        p = p2;
    }
    proof {
        assert(spec_parse_properties(data@, p as int) == Ok::<(Seq<SpecNamedValue>, int), PsfError>(
            (Seq::empty(), p as int),
        ));
        assert(crate::ast::nvs_view(values@) + Seq::<SpecNamedValue>::empty() =~= crate::ast::nvs_view(
            values@,
        ));
    }
    Ok((Properties { values }, p))
}

/// Decodes one signal reference: identifier, name, type identifier, property
/// list.
pub fn parse_signal_ref(data: &[u8], pos: usize) -> (r: Result<(SignalRef, usize), PsfError>)
    ensures
        step_view(r) == spec_parse_signal_ref(data@, pos as int),
{
    proof {
        vstd::slice::axiom_spec_len::<u8>(data);
    }
    let (id, p0) = match read_u32(data, pos) {
        Ok(v) => v,
        Err(e) => {
            return Err(e);
        },
    };
    let (name, p1) = match parse_string(data, p0) {
        Ok(v) => v,
        Err(e) => {
            return Err(e);
        },
    };
    let (tid, p2) = match read_u32(data, p1) {
        Ok(v) => v,
        Err(e) => {
            return Err(e);
        },
    };
    let (props, p3) = match parse_properties(data, p2) {
        Ok(v) => v,
        Err(e) => {
            return Err(e);
        },
    };
    Ok((SignalRef { id: TraceId(id), name, type_id: TypeId(tid), properties: props }, p3))
}

/// Decodes one trace group: identifier, name, declared count, then exactly
/// that many tag-16 signal references; a different tag inside the member list
/// is a decode failure, so groups cannot nest.
#[verifier::rlimit(60)]
#[verifier::loop_isolation(false)]
pub fn parse_group(data: &[u8], pos: usize) -> (r: Result<(TraceGroup, usize), PsfError>)
    ensures
        step_view(r) == spec_parse_group(data@, pos as int),
{
    proof {
        vstd::slice::axiom_spec_len::<u8>(data);
    }
    let (id, p0) = match read_u32(data, pos) {
        Ok(v) => v,
        Err(e) => {
            return Err(e);
        },
    };
    let (name, p1) = match parse_string(data, p0) {
        Ok(v) => v,
        Err(e) => {
            return Err(e);
        },
    };
    let (count, pstart) = match read_u32(data, p1) {
        Ok(v) => v,
        Err(e) => {
            return Err(e);
        },
    };
    let mut signals: Vec<SignalRef> = Vec::new();
    let mut p = pstart;
    let mut k: u32 = 0;
    proof {
        assert(crate::ast::sigs_view(signals@) =~= Seq::<SpecSignalRef>::empty());
        if let Ok((rest, e)) = spec_parse_group_signals(data@, pstart as int, count as int) {
            assert(Seq::<SpecSignalRef>::empty() + rest =~= rest);
        }
    }
    while k < count
        invariant
            k <= count,
            match spec_parse_group_signals(data@, p as int, count - k) {
                Ok((rest, e)) => spec_parse_group_signals(data@, pstart as int, count as int)
                    == Ok::<(Seq<SpecSignalRef>, int), PsfError>(
                    (crate::ast::sigs_view(signals@) + rest, e),
                ),
                Err(e) => spec_parse_group_signals(data@, pstart as int, count as int) == Err::<
                    (Seq<SpecSignalRef>, int),
                    PsfError,
                >(e),
            },
        decreases count - k,
    {
        let (tag, pt) = match read_u32(data, p) {
            Ok(v) => v,
            Err(e) => {
                return Err(e);
            },
        };
        if tag != TAG_SIGNAL {
            return Err(PsfError::UnexpectedTag { expected: TAG_SIGNAL, got: tag, at: p });
        }
        let (sig, p2) = match parse_signal_ref(data, pt) {
            Ok(v) => v,
            Err(e) => {
                return Err(e);
            },
        };
        let ghost pre = signals@;
        signals.push(sig);
        proof {
            assert(crate::ast::sigs_view(signals@) =~= crate::ast::sigs_view(pre) + seq![sig@]);
            if let Ok((rest2, e2)) = spec_parse_group_signals(data@, p2 as int, count - k - 1) {
                assert(crate::ast::sigs_view(pre) + (seq![sig@] + rest2) =~= (crate::ast::sigs_view(
                    pre,
                ) + seq![sig@]) + rest2);
            }
        }
        p = p2;
        k = k + 1;
    }
    proof {
        assert(crate::ast::sigs_view(signals@) + Seq::<SpecSignalRef>::empty()
            =~= crate::ast::sigs_view(signals@));
    }
    Ok((TraceGroup { name, count, id: GroupId(id), signals }, p))
}

/// Decodes one trace entry: tag 16 introduces a bare signal, tag 17 a group.
pub fn parse_trace_item(data: &[u8], pos: usize) -> (r: Result<(Trace, usize), PsfError>)
    ensures
        step_view(r) == spec_parse_trace_item(data@, pos as int),
{
    proof {
        vstd::slice::axiom_spec_len::<u8>(data);
    }
    let (tag, p0) = match read_u32(data, pos) {
        Ok(v) => v,
        Err(e) => {
            return Err(e);
        },
    };
    if tag == TAG_SIGNAL {
        let (sig, p1) = match parse_signal_ref(data, p0) {
            Ok(v) => v,
            Err(e) => {
                return Err(e);
            },
        };
        Ok((Trace::Signal(sig), p1))
    } else if tag == TAG_GROUP {
        let (g, p1) = match parse_group(data, p0) {
            Ok(v) => v,
            Err(e) => {
                return Err(e);
            },
        };
        Ok((Trace::Group(g), p1))
    } else {
        Err(PsfError::UnexpectedTag { expected: TAG_SIGNAL, got: tag, at: pos })
    }
}

/// Decodes one type record: tag 16, identifier, name, an ignored array-flag
/// word, a data-type code, then a property list.
pub fn parse_type_item(data: &[u8], pos: usize) -> (r: Result<(TypeDef, usize), PsfError>)
    ensures
        step_view(r) == spec_parse_type_item(data@, pos as int),
{
    proof {
        vstd::slice::axiom_spec_len::<u8>(data);
    }
    let (tag, p0) = match read_u32(data, pos) {
        Ok(v) => v,
        Err(e) => {
            return Err(e);
        },
    };
    if tag != TAG_SIGNAL {
        return Err(PsfError::UnexpectedTag { expected: TAG_SIGNAL, got: tag, at: pos });
    }
    let (id, pid) = match read_u32(data, p0) {
        Ok(v) => v,
        Err(e) => {
            return Err(e);
        },
    };
    let (name, p1) = match parse_string(data, pid) {
        Ok(v) => v,
        Err(e) => {
            return Err(e);
        },
    };
    let (_array_flag, pa) = match read_u32(data, p1) {
        Ok(v) => v,
        Err(e) => {
            return Err(e);
        },
    };
    let (code, pc) = match read_u32(data, pa) {
        Ok(v) => v,
        Err(e) => {
            return Err(e);
        },
    };
    let dt = match DataType::from_u32(code) {
        Ok(v) => v,
        Err(e) => {
            return Err(e);
        },
    };
    let (props, p2) = match parse_properties(data, pc) {
        Ok(v) => v,
        Err(e) => {
            return Err(e);
        },
    };
    Ok((TypeDef { id: TypeId(id), name, data_type: dt, properties: props }, p2))
}


/// Member lists of a group only move forward, within the buffer.
pub proof fn lemma_group_signals_advance(s: Seq<u8>, pos: int, count: int, sigs: Seq<SpecSignalRef>, p2: int)
    requires
        0 <= pos <= s.len(),
        spec_parse_group_signals(s, pos, count) == Ok::<(Seq<SpecSignalRef>, int), PsfError>(
            (sigs, p2),
        ),
    ensures
        pos <= p2 <= s.len(),
    decreases count,
{
    if count > 0 && pos + 4 <= s.len() && be_u32_at(s, pos) == TAG_SIGNAL {
        match spec_parse_signal_ref(s, pos + 4) {
            Ok((sig, pm)) => {
                lemma_signal_ref_advances(s, pos + 4, sig, pm);
                match spec_parse_group_signals(s, pm, count - 1) {
                    Ok((rest, p3)) => {
                        lemma_group_signals_advance(s, pm, count - 1, rest, p3);
                    },
                    Err(_) => {},
                }
            },
            Err(_) => {},
        }
    }
}

/// A successfully parsed group consumes at least twelve bytes and stays
/// within the buffer.
pub proof fn lemma_group_advances(s: Seq<u8>, pos: int, g: SpecTraceGroup, p2: int)
    requires
        pos >= 0,
        spec_parse_group(s, pos) == Ok::<(SpecTraceGroup, int), PsfError>((g, p2)),
    ensures
        pos + 12 <= p2 <= s.len(),
{
    match spec_parse_string(s, pos + 4) {
        Ok((name, p1)) => {
            lemma_string_advances(s, pos + 4, name, p1);
            if p1 + 4 <= s.len() {
                let count = be_u32_at(s, p1);
                match spec_parse_group_signals(s, p1 + 4, count as int) {
                    Ok((sigs, pg)) => {
                        lemma_group_signals_advance(s, p1 + 4, count as int, sigs, pg);
                    },
                    Err(_) => {},
                }
            }
        },
        Err(_) => {},
    }
}

/// A successfully parsed trace entry consumes at least sixteen bytes and
/// stays within the buffer.
pub proof fn lemma_trace_item_advances(s: Seq<u8>, pos: int, t: SpecTrace, p2: int)
    requires
        pos >= 0,
        spec_parse_trace_item(s, pos) == Ok::<(SpecTrace, int), PsfError>((t, p2)),
    ensures
        pos + 16 <= p2 <= s.len(),
{
    if pos + 4 <= s.len() {
        let tag = be_u32_at(s, pos);
        if tag == TAG_SIGNAL {
            match spec_parse_signal_ref(s, pos + 4) {
                Ok((sig, pm)) => {
                    lemma_signal_ref_advances(s, pos + 4, sig, pm);
                },
                Err(_) => {},
            }
        } else if tag == TAG_GROUP {
            match spec_parse_group(s, pos + 4) {
                Ok((g, pm)) => {
                    lemma_group_advances(s, pos + 4, g, pm);
                },
                Err(_) => {},
            }
        }
    }
}

/// A successfully parsed type record consumes at least twenty bytes and stays
/// within the buffer.
pub proof fn lemma_type_item_advances(s: Seq<u8>, pos: int, t: SpecTypeDef, p2: int)
    requires
        pos >= 0,
        spec_parse_type_item(s, pos) == Ok::<(SpecTypeDef, int), PsfError>((t, p2)),
    ensures
        pos + 20 <= p2 <= s.len(),
{
    if pos + 8 <= s.len() {
        match spec_parse_string(s, pos + 8) {
            Ok((name, p1)) => {
                lemma_string_advances(s, pos + 8, name, p1);
                if p1 + 8 <= s.len() {
                    match spec_parse_properties(s, p1 + 8) {
                        Ok((props, pp)) => {
                            lemma_properties_advance(s, p1 + 8, props, pp);
                        },
                        Err(_) => {},
                    }
                }
            },
            Err(_) => {},
        }
    }
}

/// The record loop of the header section: named values consumed while more
/// than four bytes remain.
pub open spec fn spec_header_records(s: Seq<u8>, pos: int) -> Result<
    (Seq<SpecNamedValue>, int),
    PsfError,
>
    decreases s.len() - pos,
{
    if !(pos >= 0 && s.len() - pos > 4) {
        Ok((Seq::empty(), pos))
    } else {
        match spec_parse_named_value(s, pos) {
            Err(e) => Err(e),
            Ok((nv, p2)) => if pos < p2 <= s.len() {
                match spec_header_records(s, p2) {
                    Err(e) => Err(e),
                    Ok((rest, p3)) => Ok((seq![nv] + rest, p3)),
                }
            } else {
                // A parsed record always moves the cursor forward within the
                // buffer, so this arm is unreachable.
                Err(PsfError::UnsupportedLayout)
            },
        }
    }
}

/// The record loop of the sweep section: tag-16 signal references consumed
/// while more than four bytes remain.
pub open spec fn spec_sweep_records(s: Seq<u8>, pos: int) -> Result<
    (Seq<SpecSignalRef>, int),
    PsfError,
>
    decreases s.len() - pos,
{
    if !(pos >= 0 && s.len() - pos > 4) {
        Ok((Seq::empty(), pos))
    } else {
        let tag = be_u32_at(s, pos);
        if tag != TAG_SIGNAL {
            Err(PsfError::UnexpectedTag { expected: TAG_SIGNAL, got: tag, at: pos as usize })
        } else {
            match spec_parse_signal_ref(s, pos + 4) {
                Err(e) => Err(e),
                Ok((sig, p2)) => if pos < p2 <= s.len() {
                    match spec_sweep_records(s, p2) {
                        Err(e) => Err(e),
                        Ok((rest, p3)) => Ok((seq![sig] + rest, p3)),
                    }
                } else {
                    // A parsed record always moves the cursor forward within
                    // the buffer, so this arm is unreachable.
                    Err(PsfError::UnsupportedLayout)
                },
            }
        }
    }
}

/// The record loop of the type section: type records consumed while more than
/// four bytes remain.
pub open spec fn spec_type_records(s: Seq<u8>, pos: int) -> Result<(Seq<SpecTypeDef>, int), PsfError>
    decreases s.len() - pos,
{
    if !(pos >= 0 && s.len() - pos > 4) {
        Ok((Seq::empty(), pos))
    } else {
        match spec_parse_type_item(s, pos) {
            Err(e) => Err(e),
            Ok((t, p2)) => if pos < p2 <= s.len() {
                match spec_type_records(s, p2) {
                    Err(e) => Err(e),
                    Ok((rest, p3)) => Ok((seq![t] + rest, p3)),
                }
            } else {
                // A parsed record always moves the cursor forward within the
                // buffer, so this arm is unreachable.
                Err(PsfError::UnsupportedLayout)
            },
        }
    }
}

/// The record loop of the trace section: signal or group entries consumed
/// while more than four bytes remain.
pub open spec fn spec_trace_records(s: Seq<u8>, pos: int) -> Result<(Seq<SpecTrace>, int), PsfError>
    decreases s.len() - pos,
{
    if !(pos >= 0 && s.len() - pos > 4) {
        Ok((Seq::empty(), pos))
    } else {
        match spec_parse_trace_item(s, pos) {
            Err(e) => Err(e),
            Ok((t, p2)) => if pos < p2 <= s.len() {
                match spec_trace_records(s, p2) {
                    Err(e) => Err(e),
                    Ok((rest, p3)) => Ok((seq![t] + rest, p3)),
                }
            } else {
                // A parsed record always moves the cursor forward within the
                // buffer, so this arm is unreachable.
                Err(PsfError::UnsupportedLayout)
            },
        }
    }
}

/// The model of [`parse_header`]: the word at `start + 4` gives the section
/// body's end offset, and the body, starting at `start + 8`, is a run of
/// named-value records. An end offset outside the buffer is reported as an
/// out-of-bounds read of zero further bytes at that offset.
pub open spec fn spec_decode_header(s: Seq<u8>, start: int) -> Result<Seq<SpecNamedValue>, PsfError> {
    if start + 8 > s.len() {
        Err(PsfError::OutOfBounds { at: start as usize, want: 8 })
    } else {
        let eofs = be_u32_at(s, start + 4) as int;
        if eofs < start + 8 || eofs > s.len() {
            Err(PsfError::OutOfBounds { at: eofs as usize, want: 0 })
        } else {
            match spec_header_records(s.subrange(start + 8, eofs), 0) {
                Err(e) => Err(e),
                Ok((vals, _)) => Ok(vals),
            }
        }
    }
}

/// The model of [`parse_sweeps`]: the same section shape as the header, with
/// tag-16 signal references as records.
pub open spec fn spec_decode_sweeps(s: Seq<u8>, start: int) -> Result<Seq<SpecSignalRef>, PsfError> {
    if start + 8 > s.len() {
        Err(PsfError::OutOfBounds { at: start as usize, want: 8 })
    } else {
        let eofs = be_u32_at(s, start + 4) as int;
        if eofs < start + 8 || eofs > s.len() {
            Err(PsfError::OutOfBounds { at: eofs as usize, want: 0 })
        } else {
            match spec_sweep_records(s.subrange(start + 8, eofs), 0) {
                Err(e) => Err(e),
                Ok((vals, _)) => Ok(vals),
            }
        }
    }
}

/// The model of [`parse_types`]: an eight-byte prolog whose first word must
/// be the container tag 22 and whose second word gives the body's end offset,
/// then a run of type records from `start + 16`.
pub open spec fn spec_decode_types(s: Seq<u8>, start: int) -> Result<Seq<SpecTypeDef>, PsfError> {
    if start + 16 > s.len() {
        Err(PsfError::OutOfBounds { at: start as usize, want: 16 })
    } else {
        let tag = be_u32_at(s, start + 8);
        if tag != TAG_CONTAINER {
            Err(PsfError::UnexpectedTag { expected: TAG_CONTAINER, got: tag, at: (start + 8) as usize })
        } else {
            let eofs = be_u32_at(s, start + 12) as int;
            if eofs < start + 16 || eofs > s.len() {
                Err(PsfError::OutOfBounds { at: eofs as usize, want: 0 })
            } else {
                match spec_type_records(s.subrange(start + 16, eofs), 0) {
                    Err(e) => Err(e),
                    Ok((vals, _)) => Ok(vals),
                }
            }
        }
    }
}

/// The model of [`parse_traces`]: the same prolog as the type section, then a
/// run of trace entries from `start + 16`.
pub open spec fn spec_decode_traces(s: Seq<u8>, start: int) -> Result<Seq<SpecTrace>, PsfError> {
    if start + 16 > s.len() {
        Err(PsfError::OutOfBounds { at: start as usize, want: 16 })
    } else {
        let tag = be_u32_at(s, start + 8);
        if tag != TAG_CONTAINER {
            Err(PsfError::UnexpectedTag { expected: TAG_CONTAINER, got: tag, at: (start + 8) as usize })
        } else {
            let eofs = be_u32_at(s, start + 12) as int;
            if eofs < start + 16 || eofs > s.len() {
                Err(PsfError::OutOfBounds { at: eofs as usize, want: 0 })
            } else {
                match spec_trace_records(s.subrange(start + 16, eofs), 0) {
                    Err(e) => Err(e),
                    Ok((vals, _)) => Ok(vals),
                }
            }
        }
    }
}

/// Decodes the header section into its record list, later duplicates
/// overriding earlier ones at lookup time.
#[verifier::rlimit(100)]
#[verifier::loop_isolation(false)]
pub fn parse_header(data: &[u8], entry: &TocEntry) -> (r: Result<Header, PsfError>)
    ensures
        match r {
            Ok(h) => spec_decode_header(data@, entry.start as int) == Ok::<
                Seq<SpecNamedValue>,
                PsfError,
            >(h@),
            Err(e) => spec_decode_header(data@, entry.start as int) == Err::<
                Seq<SpecNamedValue>,
                PsfError,
            >(e),
        },
{
    let dlen = data.len();
    if entry.start > dlen || dlen - entry.start < 8 {
        return Err(PsfError::OutOfBounds { at: entry.start, want: 8 });
    }
    let eofs = crate::reader::word_at(data, entry.start + 4) as usize;
    if eofs < entry.start + 8 || eofs > dlen {
        return Err(PsfError::OutOfBounds { at: eofs, want: 0 });
    }
    let body = &data[entry.start + 8..eofs];
    let blen = body.len();
    let mut values: Vec<NamedValue> = Vec::new();
    let mut p: usize = 0;
    proof {
        assert(crate::ast::nvs_view(values@) =~= Seq::<SpecNamedValue>::empty());
        if let Ok((rest, e)) = spec_header_records(body@, 0) {
            assert(Seq::<SpecNamedValue>::empty() + rest =~= rest);
        }
    }
    while blen - p > 4
        invariant
            p <= blen,
            match spec_header_records(body@, p as int) {
                Ok((rest, e)) => spec_header_records(body@, 0) == Ok::<
                    (Seq<SpecNamedValue>, int),
                    PsfError,
                >((crate::ast::nvs_view(values@) + rest, e)),
                Err(e) => spec_header_records(body@, 0) == Err::<
                    (Seq<SpecNamedValue>, int),
                    PsfError,
                >(e),
            },
        decreases blen - p,
    {
        let (nv, p2) = match parse_named_value(body, p) {
            Ok(v) => v,
            Err(e) => {
                return Err(e);
            },
        };
        proof {
            lemma_named_value_advances(body@, p as int, nv@, p2 as int);
        }
        let ghost pre = values@;
        values.push(nv);
        proof {
            assert(crate::ast::nvs_view(values@) =~= crate::ast::nvs_view(pre) + seq![nv@]);
            if let Ok((rest2, e2)) = spec_header_records(body@, p2 as int) {
                assert(crate::ast::nvs_view(pre) + (seq![nv@] + rest2) =~= (crate::ast::nvs_view(
                    pre,
                ) + seq![nv@]) + rest2);
            }
        }
        p = p2;
    }
    proof {
        assert(crate::ast::nvs_view(values@) + Seq::<SpecNamedValue>::empty()
            =~= crate::ast::nvs_view(values@));
    }
    Ok(Header { values })
}

/// Decodes the sweep section into its ordered signal list; index 0, if
/// present, is the independent sweep variable.
#[verifier::rlimit(100)]
#[verifier::loop_isolation(false)]
pub fn parse_sweeps(data: &[u8], entry: &TocEntry) -> (r: Result<Vec<SignalRef>, PsfError>)
    ensures
        match r {
            Ok(v) => spec_decode_sweeps(data@, entry.start as int) == Ok::<
                Seq<SpecSignalRef>,
                PsfError,
            >(crate::ast::sigs_view(v@)),
            Err(e) => spec_decode_sweeps(data@, entry.start as int) == Err::<
                Seq<SpecSignalRef>,
                PsfError,
            >(e),
        },
{
    let dlen = data.len();
    if entry.start > dlen || dlen - entry.start < 8 {
        return Err(PsfError::OutOfBounds { at: entry.start, want: 8 });
    }
    let eofs = crate::reader::word_at(data, entry.start + 4) as usize;
    if eofs < entry.start + 8 || eofs > dlen {
        return Err(PsfError::OutOfBounds { at: eofs, want: 0 });
    }
    let body = &data[entry.start + 8..eofs];
    let blen = body.len();
    let mut values: Vec<SignalRef> = Vec::new();
    let mut p: usize = 0;
    proof {
        assert(crate::ast::sigs_view(values@) =~= Seq::<SpecSignalRef>::empty());
        if let Ok((rest, e)) = spec_sweep_records(body@, 0) {
            assert(Seq::<SpecSignalRef>::empty() + rest =~= rest);
        }
    }
    while blen - p > 4
        invariant
            p <= blen,
            match spec_sweep_records(body@, p as int) {
                Ok((rest, e)) => spec_sweep_records(body@, 0) == Ok::<
                    (Seq<SpecSignalRef>, int),
                    PsfError,
                >((crate::ast::sigs_view(values@) + rest, e)),
                Err(e) => spec_sweep_records(body@, 0) == Err::<
                    (Seq<SpecSignalRef>, int),
                    PsfError,
                >(e),
            },
        decreases blen - p,
    {
        let (tag, pt) = match read_u32(body, p) {
            Ok(v) => v,
            Err(e) => {
                return Err(e);
            },
        };
        if tag != TAG_SIGNAL {
            return Err(PsfError::UnexpectedTag { expected: TAG_SIGNAL, got: tag, at: p });
        }
        let (sig, p2) = match parse_signal_ref(body, pt) {
            Ok(v) => v,
            Err(e) => {
                return Err(e);
            },
        };
        proof {
            lemma_signal_ref_advances(body@, p + 4, sig@, p2 as int);
        }
        let ghost pre = values@;
        values.push(sig);
        proof {
            assert(crate::ast::sigs_view(values@) =~= crate::ast::sigs_view(pre) + seq![sig@]);
            if let Ok((rest2, e2)) = spec_sweep_records(body@, p2 as int) {
                assert(crate::ast::sigs_view(pre) + (seq![sig@] + rest2) =~= (crate::ast::sigs_view(
                    pre,
                ) + seq![sig@]) + rest2);
            }
        }
        p = p2;
    }
    proof {
        assert(crate::ast::sigs_view(values@) + Seq::<SpecSignalRef>::empty()
            =~= crate::ast::sigs_view(values@));
    }
    Ok(values)
}

/// Decodes the type section into the type table.
#[verifier::rlimit(100)]
#[verifier::loop_isolation(false)]
pub fn parse_types(data: &[u8], entry: &TocEntry) -> (r: Result<Types, PsfError>)
    ensures
        match r {
            Ok(t) => spec_decode_types(data@, entry.start as int) == Ok::<
                Seq<SpecTypeDef>,
                PsfError,
            >(t@),
            Err(e) => spec_decode_types(data@, entry.start as int) == Err::<
                Seq<SpecTypeDef>,
                PsfError,
            >(e),
        },
{
    let dlen = data.len();
    if entry.start > dlen || dlen - entry.start < 16 {
        return Err(PsfError::OutOfBounds { at: entry.start, want: 16 });
    }
    let tag = crate::reader::word_at(data, entry.start + 8);
    if tag != TAG_CONTAINER {
        return Err(
            PsfError::UnexpectedTag { expected: TAG_CONTAINER, got: tag, at: entry.start + 8 },
        );
    }
    let eofs = crate::reader::word_at(data, entry.start + 12) as usize;
    if eofs < entry.start + 16 || eofs > dlen {
        return Err(PsfError::OutOfBounds { at: eofs, want: 0 });
    }
    let body = &data[entry.start + 16..eofs];
    let blen = body.len();
    let mut values: Vec<TypeDef> = Vec::new();
    let mut p: usize = 0;
    proof {
        assert(crate::ast::types_view(values@) =~= Seq::<SpecTypeDef>::empty());
        if let Ok((rest, e)) = spec_type_records(body@, 0) {
            assert(Seq::<SpecTypeDef>::empty() + rest =~= rest);
        }
    }
    while blen - p > 4
        invariant
            p <= blen,
            match spec_type_records(body@, p as int) {
                Ok((rest, e)) => spec_type_records(body@, 0) == Ok::<
                    (Seq<SpecTypeDef>, int),
                    PsfError,
                >((crate::ast::types_view(values@) + rest, e)),
                Err(e) => spec_type_records(body@, 0) == Err::<(Seq<SpecTypeDef>, int), PsfError>(
                    e,
                ),
            },
        decreases blen - p,
    {
        let (t, p2) = match parse_type_item(body, p) {
            Ok(v) => v,
            Err(e) => {
                return Err(e);
            },
        };
        proof {
            lemma_type_item_advances(body@, p as int, t@, p2 as int);
        }
        let ghost pre = values@;
        values.push(t);
        proof {
            assert(crate::ast::types_view(values@) =~= crate::ast::types_view(pre) + seq![t@]);
            if let Ok((rest2, e2)) = spec_type_records(body@, p2 as int) {
                assert(crate::ast::types_view(pre) + (seq![t@] + rest2) =~= (crate::ast::types_view(
                    pre,
                ) + seq![t@]) + rest2);
            }
        }
        p = p2;
    }
    proof {
        assert(crate::ast::types_view(values@) + Seq::<SpecTypeDef>::empty()
            =~= crate::ast::types_view(values@));
    }
    Ok(Types { types: values })
}

/// Decodes the trace section into the ordered trace list.
#[verifier::rlimit(100)]
#[verifier::loop_isolation(false)]
pub fn parse_traces(data: &[u8], entry: &TocEntry) -> (r: Result<Vec<Trace>, PsfError>)
    ensures
        match r {
            Ok(v) => spec_decode_traces(data@, entry.start as int) == Ok::<
                Seq<SpecTrace>,
                PsfError,
            >(crate::ast::traces_view(v@)),
            Err(e) => spec_decode_traces(data@, entry.start as int) == Err::<
                Seq<SpecTrace>,
                PsfError,
            >(e),
        },
{
    let dlen = data.len();
    if entry.start > dlen || dlen - entry.start < 16 {
        return Err(PsfError::OutOfBounds { at: entry.start, want: 16 });
    }
    let tag = crate::reader::word_at(data, entry.start + 8);
    if tag != TAG_CONTAINER {
        return Err(
            PsfError::UnexpectedTag { expected: TAG_CONTAINER, got: tag, at: entry.start + 8 },
        );
    }
    let eofs = crate::reader::word_at(data, entry.start + 12) as usize;
    if eofs < entry.start + 16 || eofs > dlen {
        return Err(PsfError::OutOfBounds { at: eofs, want: 0 });
    }
    let body = &data[entry.start + 16..eofs];
    let blen = body.len();
    let mut values: Vec<Trace> = Vec::new();
    let mut p: usize = 0;
    proof {
        assert(crate::ast::traces_view(values@) =~= Seq::<SpecTrace>::empty());
        if let Ok((rest, e)) = spec_trace_records(body@, 0) {
            assert(Seq::<SpecTrace>::empty() + rest =~= rest);
        }
    }
    while blen - p > 4
        invariant
            p <= blen,
            match spec_trace_records(body@, p as int) {
                Ok((rest, e)) => spec_trace_records(body@, 0) == Ok::<
                    (Seq<SpecTrace>, int),
                    PsfError,
                >((crate::ast::traces_view(values@) + rest, e)),
                Err(e) => spec_trace_records(body@, 0) == Err::<(Seq<SpecTrace>, int), PsfError>(e),
            },
        decreases blen - p,
    {
        let (t, p2) = match parse_trace_item(body, p) {
            Ok(v) => v,
            Err(e) => {
                return Err(e);
            },
        };
        proof {
            lemma_trace_item_advances(body@, p as int, t@, p2 as int);
        }
        let ghost pre = values@;
        values.push(t);
        proof {
            assert(crate::ast::traces_view(values@) =~= crate::ast::traces_view(pre) + seq![t@]);
            if let Ok((rest2, e2)) = spec_trace_records(body@, p2 as int) {
                assert(crate::ast::traces_view(pre) + (seq![t@] + rest2)
                    =~= (crate::ast::traces_view(pre) + seq![t@]) + rest2);
            }
        }
        p = p2;
    }
    proof {
        assert(crate::ast::traces_view(values@) + Seq::<SpecTrace>::empty()
            =~= crate::ast::traces_view(values@));
    }
    Ok(values)
}

} // verus!
