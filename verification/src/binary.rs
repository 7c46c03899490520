use vstd::prelude::*;

use crate::ast::{spec_header_lookup, Header, PsfAst, SpecNamedValue, SpecPsfAst, SpecValue};
use crate::errors::PsfError;
use crate::sections::{parse_header, parse_sweeps, parse_traces, parse_types};
use crate::toc::{parse_toc, spec_parse_toc, spec_toc_lookup, SectionKind};
use crate::values::parse_values;

verus! {

/// The bytes of the header key `"PSF window size"`.
pub open spec fn key_window_size() -> Seq<u8> {
    seq![80u8, 83, 70, 32, 119, 105, 110, 100, 111, 119, 32, 115, 105, 122, 101]
}

/// The bytes of the header key `"PSF traces"`.
pub open spec fn key_traces() -> Seq<u8> {
    seq![80u8, 83, 70, 32, 116, 114, 97, 99, 101, 115]
}

/// The bytes of the header key `"PSF sweep points"`.
pub open spec fn key_sweep_points() -> Seq<u8> {
    seq![80u8, 83, 70, 32, 115, 119, 101, 101, 112, 32, 112, 111, 105, 110, 116, 115]
}

/// The header key `"PSF window size"` as runtime bytes.
fn window_size_key() -> (r: Vec<u8>)
    ensures
        r@ == key_window_size(),
{
    let mut v: Vec<u8> = Vec::new();
    v.push(80);
    v.push(83);
    v.push(70);
    v.push(32);
    v.push(119);
    v.push(105);
    v.push(110);
    v.push(100);
    v.push(111);
    v.push(119);
    v.push(32);
    v.push(115);
    v.push(105);
    v.push(122);
    v.push(101);
    proof {
        assert(v@ =~= key_window_size());
    }
    v
}

/// The header key `"PSF traces"` as runtime bytes.
fn traces_key() -> (r: Vec<u8>)
    ensures
        r@ == key_traces(),
{
    let mut v: Vec<u8> = Vec::new();
    v.push(80);
    v.push(83);
    v.push(70);
    v.push(32);
    v.push(116);
    v.push(114);
    v.push(97);
    v.push(99);
    v.push(101);
    v.push(115);
    proof {
        assert(v@ =~= key_traces());
    }
    v
}

/// The header key `"PSF sweep points"` as runtime bytes.
fn sweep_points_key() -> (r: Vec<u8>)
    ensures
        r@ == key_sweep_points(),
{
    let mut v: Vec<u8> = Vec::new();
    v.push(80);
    v.push(83);
    v.push(70);
    v.push(32);
    v.push(115);
    v.push(119);
    v.push(101);
    v.push(101);
    v.push(112);
    v.push(32);
    v.push(112);
    v.push(111);
    v.push(105);
    v.push(110);
    v.push(116);
    v.push(115);
    proof {
        assert(v@ =~= key_sweep_points());
    }
    v
}

/// The decoder's three control parameters, read from the header: bytes per
/// slab (`"PSF window size"`), the leaf-signal column count (`"PSF traces"`),
/// and the total sample count (`"PSF sweep points"`). Each must be present as
/// an integer; the first two must fit 32 bits and the third must be
/// non-negative, or the layout is unsupported.
pub open spec fn spec_control(h: Seq<SpecNamedValue>) -> Option<(int, int, int)> {
    match spec_header_lookup(h, key_window_size()) {
        Some(SpecValue::Int(w)) => match spec_header_lookup(h, key_traces()) {
            Some(SpecValue::Int(n)) => match spec_header_lookup(h, key_sweep_points()) {
                Some(SpecValue::Int(p)) => if 0 <= w <= 0xffffffff && 0 <= n <= 0xffffffff && 0
                    <= p {
                    Some((w as int, n as int, p as int))
                } else {
                    None
                },
                _ => None,
            },
            _ => None,
        },
        _ => None,
    }
}

/// The model of [`parse`]: the table of contents is scanned, then the header,
/// type, sweep and trace sections are decoded at the ranges it gives, in that
/// order, and finally the value section is decoded under the header's control
/// parameters. A missing section fails with that section's kind code; a
/// header without usable control parameters, or a sweep list that does not
/// hold exactly one variable, is an unsupported layout.
pub open spec fn spec_parse(s: Seq<u8>) -> Result<SpecPsfAst, PsfError> {
    match spec_parse_toc(s) {
        Err(e) => Err(e),
        Ok(entries) => match spec_toc_lookup(entries, SectionKind::Header) {
            None => Err(PsfError::MissingSection { got: 0 }),
            Some(he) => match crate::sections::spec_decode_header(s, he.start as int) {
                Err(e) => Err(e),
                Ok(header) => match spec_toc_lookup(entries, SectionKind::Type) {
                    None => Err(PsfError::MissingSection { got: 1 }),
                    Some(te) => match crate::sections::spec_decode_types(s, te.start as int) {
                        Err(e) => Err(e),
                        Ok(types) => match spec_toc_lookup(entries, SectionKind::Sweep) {
                            None => Err(PsfError::MissingSection { got: 2 }),
                            Some(se) => match crate::sections::spec_decode_sweeps(
                                s,
                                se.start as int,
                            ) {
                                Err(e) => Err(e),
                                Ok(sweeps) => match spec_toc_lookup(entries, SectionKind::Trace) {
                                    None => Err(PsfError::MissingSection { got: 3 }),
                                    Some(tr) => match crate::sections::spec_decode_traces(
                                        s,
                                        tr.start as int,
                                    ) {
                                        Err(e) => Err(e),
                                        Ok(traces) => match spec_toc_lookup(
                                            entries,
                                            SectionKind::Value,
                                        ) {
                                            None => Err(PsfError::MissingSection { got: 4 }),
                                            Some(ve) => match spec_control(header) {
                                                None => Err(PsfError::UnsupportedLayout),
                                                Some(c) => if sweeps.len() != 1 {
                                                    Err(PsfError::UnsupportedLayout)
                                                } else {
                                                    match crate::values::spec_decode_values(
                                                        s,
                                                        ve.start as int,
                                                        c.0,
                                                        c.1,
                                                        c.2,
                                                        sweeps[0],
                                                        traces,
                                                        types,
                                                    ) {
                                                        Err(e) => Err(e),
                                                        Ok(values) => Ok(
                                                            SpecPsfAst {
                                                                header,
                                                                types,
                                                                sweeps,
                                                                traces,
                                                                values,
                                                            },
                                                        ),
                                                    }
                                                },
                                            },
                                        },
                                    },
                                },
                            },
                        },
                    },
                },
            },
        },
    }
}

/// Decodes one binary PSF buffer into its abstract syntax tree, running the
/// stages in the fixed order: table of contents, header, types, sweeps,
/// traces, values. Either the whole decode succeeds, or a specific error is
/// returned and no partial tree escapes.
pub fn parse(input: &[u8]) -> (r: Result<PsfAst, PsfError>)
    ensures
        match r {
            Ok(ast) => spec_parse(input@) == Ok::<SpecPsfAst, PsfError>(ast@),
            Err(e) => spec_parse(input@) == Err::<SpecPsfAst, PsfError>(e),
        },
{
    let toc = match parse_toc(input) {
        Ok(t) => t,
        Err(e) => {
            return Err(e);
        },
    };
    let he = match toc.section(SectionKind::Header) {
        Ok(en) => en,
        Err(e) => {
            return Err(e);
        },
    };
    let header = match parse_header(input, &he) {
        Ok(h) => h,
        Err(e) => {
            return Err(e);
        },
    };
    let te = match toc.section(SectionKind::Type) {
        Ok(en) => en,
        Err(e) => {
            return Err(e);
        },
    };
    let types = match parse_types(input, &te) {
        Ok(t) => t,
        Err(e) => {
            return Err(e);
        },
    };
    let se = match toc.section(SectionKind::Sweep) {
        Ok(en) => en,
        Err(e) => {
            return Err(e);
        },
    };
    let sweeps = match parse_sweeps(input, &se) {
        Ok(v) => v,
        Err(e) => {
            return Err(e);
        },
    };
    let tr = match toc.section(SectionKind::Trace) {
        Ok(en) => en,
        Err(e) => {
            return Err(e);
        },
    };
    let traces = match parse_traces(input, &tr) {
        Ok(v) => v,
        Err(e) => {
            return Err(e);
        },
    };
    let ve = match toc.section(SectionKind::Value) {
        Ok(en) => en,
        Err(e) => {
            return Err(e);
        },
    };
    let control = read_control(&header);
    let (window_size, num_traces, sweep_points) = match control {
        Some(c) => c,
        None => {
            return Err(PsfError::UnsupportedLayout);
        },
    };
    if sweeps.len() != 1 {
        return Err(PsfError::UnsupportedLayout);
    }
    let values = match parse_values(
        input,
        &ve,
        window_size,
        num_traces,
        sweep_points,
        &sweeps[0],
        &traces,
        &types,
    ) {
        Ok(v) => v,
        Err(e) => {
            return Err(e);
        },
    };
    Ok(PsfAst { header, types, sweeps, traces, values })
}

/// Reads the three control parameters from the decoded header, or nothing if
/// one is absent, not an integer, or out of range.
fn read_control(header: &Header) -> (r: Option<(u32, u32, u64)>)
    ensures
        match r {
            Some((w, n, p)) => spec_control(header@) == Some(
                (w as int, n as int, p as int),
            ),
            None => spec_control(header@) is None,
        },
{
    let wk = window_size_key();
    let w = match header.get_int(wk.as_slice()) {
        Some(v) => v,
        None => {
            return None;
        },
    };
    let nk = traces_key();
    let n = match header.get_int(nk.as_slice()) {
        Some(v) => v,
        None => {
            return None;
        },
    };
    let pk = sweep_points_key();
    let p = match header.get_int(pk.as_slice()) {
        Some(v) => v,
        None => {
            return None;
        },
    };
    if !(0 <= w && w <= 0xffffffff && 0 <= n && n <= 0xffffffff && 0 <= p) {
        return None;
    }
    Some((w as u32, n as u32, p as u64))
}

/// A stateful wrapper around [`parse`]: it borrows the file's bytes and, once
/// driven, hands out the decoded tree.
pub struct PsfParser<'a> {
    pub data: &'a [u8],
    pub ast: Option<PsfAst>,
}

impl<'a> PsfParser<'a> {
    /// A parser over `file`, before any decoding has run.
    pub fn new(file: &'a [u8]) -> (r: Self)
        ensures
            r.data@ == file@,
            r.ast is None,
    {
        PsfParser { data: file, ast: None }
    }

    /// Runs the whole decode; on success the tree is held for
    /// [`Self::into_inner`], and on failure nothing is.
    pub fn parse(&mut self) -> (r: Result<(), PsfError>)
        ensures
            final(self).data@ == old(self).data@,
            match spec_parse(old(self).data@) {
                Ok(m) => r is Ok && (final(self).ast matches Some(a) && a@ == m),
                Err(e) => r == Err::<(), PsfError>(e) && final(self).ast is None,
            },
    {
        match parse(self.data) {
            Ok(ast) => {
                self.ast = Some(ast);
                Ok(())
            },
            Err(e) => {
                self.ast = None;
                Err(e)
            },
        }
    }

    /// The decoded tree, if [`Self::parse`] succeeded.
    pub fn into_inner(self) -> (r: Option<PsfAst>)
        ensures
            r == self.ast,
    {
        self.ast
    }
}


/// Sample-count conservation for a whole decode: when [`parse`] succeeds, the
/// value table holds the sweep variable's vector first and one vector per
/// flattened leaf, and every one of them carries exactly the header's
/// `"PSF sweep points"` count of samples.
pub proof fn lemma_parse_conserves_samples(s: Seq<u8>, m: SpecPsfAst)
    requires
        spec_parse(s) == Ok::<SpecPsfAst, PsfError>(m),
    ensures
        spec_control(m.header) is Some,
        m.sweeps.len() == 1,
        m.values.len() == crate::values::spec_flatten(m.traces).len() + 1,
        m.values[0].0 == m.sweeps[0].id,
        m.values[0].1 is Real,
        crate::values::sample_len(m.values[0].1) == spec_control(m.header).unwrap().2,
        forall|j: int|
            1 <= j < m.values.len() ==> (#[trigger] m.values[j]).0 == crate::values::spec_flatten(
                m.traces,
            )[j - 1].id && crate::values::sample_len(m.values[j].1) == spec_control(
                m.header,
            ).unwrap().2,
{
    let entries = match spec_parse_toc(s) {
        Ok(en) => en,
        Err(_) => arbitrary(),
    };
    let ve = spec_toc_lookup(entries, SectionKind::Value).unwrap();
    let c = spec_control(m.header).unwrap();
    crate::values::lemma_sample_conservation(
        s,
        ve.start as int,
        c.0,
        c.1,
        c.2,
        m.sweeps[0],
        m.traces,
        m.types,
        m.values,
    );
}

/// Type dispatch for a whole decode: when [`parse`] succeeds, a leaf whose
/// resolved data type is `Real` owns a real vector and one whose resolved
/// type is `Complex` owns a vector of pairs; no other resolved type survives
/// a decode.
pub proof fn lemma_parse_type_dispatch(s: Seq<u8>, m: SpecPsfAst)
    requires
        spec_parse(s) == Ok::<SpecPsfAst, PsfError>(m),
    ensures
        m.values.len() == crate::values::spec_flatten(m.traces).len() + 1,
        forall|j: int|
            1 <= j < m.values.len() ==> match crate::ast::spec_types_lookup(
                m.types,
                crate::values::spec_flatten(m.traces)[j - 1].type_id,
            ) {
                Some(t) => (t.data_type == crate::ast::DataType::Real ==> (#[trigger] m.values[j]).1
                    is Real) && (t.data_type == crate::ast::DataType::Complex ==> m.values[j].1
                    is Complex),
                None => false,
            },
{
    let entries = match spec_parse_toc(s) {
        Ok(en) => en,
        Err(_) => arbitrary(),
    };
    let ve = spec_toc_lookup(entries, SectionKind::Value).unwrap();
    let c = spec_control(m.header).unwrap();
    crate::values::lemma_type_dispatch(
        s,
        ve.start as int,
        c.0,
        c.1,
        c.2,
        m.sweeps[0],
        m.traces,
        m.types,
        m.values,
    );
}

} // verus!
