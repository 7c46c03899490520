use vstd::prelude::*;

use crate::ascii;
use crate::ast::Values;
use crate::errors::PsfError;
use crate::table::{
    build_groups, groups_get, groups_view, spec_assoc, spec_groups, spec_upsert, table_get,
    table_view, table_view_samples,
};

verus! {

/// A DC-analysis view: an operating point maps each signal to one scalar; a
/// DC sweep maps each signal to a vector over the swept parameter.
#[derive(Debug, PartialEq)]
pub enum DcData {
    Op(OpData),
    Sweep(SweepData),
}

/// An operating-point result: one scalar per signal (raw IEEE-754 bits).
#[derive(Debug, Clone, PartialEq)]
pub struct OpData {
    pub signals: Vec<(Vec<u8>, u64)>,
}

/// A DC-sweep result: a vector per signal, plus the swept parameter's name
/// and values.
#[derive(Debug, PartialEq)]
pub struct SweepData {
    pub signals: Vec<(Vec<u8>, Vec<u64>)>,
    pub param: (Vec<u8>, Vec<u64>),
}

/// The model of a [`DcData`].
pub enum SpecDcData {
    Op(Seq<(Seq<u8>, u64)>),
    Sweep(Seq<(Seq<u8>, Seq<u64>)>, Seq<u8>, Seq<u64>),
}

impl View for DcData {
    type V = SpecDcData;

    open spec fn view(&self) -> SpecDcData {
        match self {
            DcData::Op(o) => SpecDcData::Op(table_view(o.signals@)),
            DcData::Sweep(s) => SpecDcData::Sweep(
                table_view_samples(s.signals@),
                s.param.0@,
                s.param.1@,
            ),
        }
    }
}

/// Folds value records into the DC view from record `i` on: each record must
/// hold exactly one real sample (any other count is an inconsistency, never
/// silently truncated); a record named like the sweep variable extends the
/// parameter axis, any other appends its sample to its signal's vector,
/// falling back to the record's own name when the group alias map does not
/// know it.
pub open spec fn spec_dc_accumulate(
    values: Seq<ascii::SignalValues>,
    groups: Seq<(Seq<u8>, Seq<u8>)>,
    sweep_name: Option<Seq<u8>>,
    i: int,
    sigs: Seq<(Seq<u8>, Seq<u64>)>,
    swvals: Seq<u64>,
) -> Result<(Seq<(Seq<u8>, Seq<u64>)>, Seq<u64>), PsfError>
    decreases values.len() - i,
{
    if i < 0 || i >= values.len() {
        Ok((sigs, swvals))
    } else {
        match values[i].values {
            Values::Complex(_) => Err(PsfError::UnsupportedDataType { got: 12 }),
            Values::Real(v) => if v@.len() != 1 {
                Err(PsfError::InconsistentSampleCount)
            } else if sweep_name == Some(values[i].signal@) {
                spec_dc_accumulate(values, groups, sweep_name, i + 1, sigs, swvals.push(v@[0]))
            } else {
                let key = match spec_assoc(groups, values[i].signal@) {
                    None => values[i].signal@,
                    Some(k) => k,
                };
                spec_dc_accumulate(
                    values,
                    groups,
                    sweep_name,
                    i + 1,
                    spec_upsert(sigs, key, v@[0]),
                    swvals,
                )
            },
        }
    }
}

/// Converts a sample table to operating-point scalars: every signal must hold
/// exactly one sample.
pub open spec fn spec_to_op(t: Seq<(Seq<u8>, Seq<u64>)>, j: int) -> Result<
    Seq<(Seq<u8>, u64)>,
    PsfError,
>
    decreases t.len() - j,
{
    if j < 0 || j >= t.len() {
        Ok(Seq::empty())
    } else if t[j].1.len() != 1 {
        Err(PsfError::InconsistentSampleCount)
    } else {
        match spec_to_op(t, j + 1) {
            Err(e) => Err(e),
            Ok(rest) => Ok(seq![(t[j].0, t[j].1[0])] + rest),
        }
    }
}

/// The model of [`DcData::from_ast`]: no sweep variable selects an operating
/// point (each signal must carry exactly one sample); exactly one selects a
/// sweep; more than one is unsupported.
pub open spec fn spec_dc_from_ast(
    sweeps: Seq<ascii::Sweep>,
    traces: Seq<ascii::Trace>,
    values: Seq<ascii::SignalValues>,
) -> Result<SpecDcData, PsfError> {
    if sweeps.len() > 1 {
        Err(PsfError::UnsupportedLayout)
    } else {
        let sweep_name: Option<Seq<u8>> = if sweeps.len() == 0 {
            None
        } else {
            Some(sweeps[0].name@)
        };
        match spec_groups(traces, 0) {
            Err(e) => Err(e),
            Ok(g) => match spec_dc_accumulate(values, g, sweep_name, 0, Seq::empty(), Seq::empty()) {
                Err(e) => Err(e),
                Ok((t, sv)) => if sweeps.len() == 1 {
                    Ok(SpecDcData::Sweep(t, sweeps[0].name@, sv))
                } else {
                    match spec_to_op(t, 0) {
                        Err(e) => Err(e),
                        Ok(sc) => Ok(SpecDcData::Op(sc)),
                    }
                },
            },
        }
    }
}

impl DcData {
    /// Builds the DC view from the external grammar-based tree, selecting the
    /// operating-point or sweep variant by the sweep list.
    #[verifier::loop_isolation(false)]
    #[verifier::rlimit(100)]
    pub fn from_ast(ast: &ascii::PsfAst) -> (r: Result<DcData, PsfError>)
        ensures
            match r {
                Ok(d) => spec_dc_from_ast(ast.sweeps@, ast.traces@, ast.values@) == Ok::<
                    SpecDcData,
                    PsfError,
                >(d@),
                Err(e) => spec_dc_from_ast(ast.sweeps@, ast.traces@, ast.values@) == Err::<
                    SpecDcData,
                    PsfError,
                >(e),
            },
    {
        if ast.sweeps.len() > 1 {
            return Err(PsfError::UnsupportedLayout);
        }
        let sweep_name: Option<Vec<u8>> = if ast.sweeps.len() == 0 {
            None
        } else {
            Some(vstd::slice::slice_to_vec(ast.sweeps[0].name.as_slice()))
        };
        let ghost sn: Option<Seq<u8>> = match sweep_name {
            None => None,
            Some(ref nm) => Some(nm@),
        };
        let groups = match build_groups(&ast.traces) {
            Ok(g) => g,
            Err(e) => {
                return Err(e);
            },
        };
        let ghost gv = groups_view(groups@);
        let mut signals: Vec<(Vec<u8>, Vec<u64>)> = Vec::new();
        let mut swvals: Vec<u64> = Vec::new();
        proof {
            assert(table_view_samples(signals@) =~= Seq::<(Seq<u8>, Seq<u64>)>::empty());
            assert(swvals@ =~= Seq::<u64>::empty());
        }
        let n = ast.values.len();
        let mut i: usize = 0;
        while i < n
            invariant
                i <= n,
                n == ast.values@.len(),
                sn == match sweep_name {
                    None => None::<Seq<u8>>,
                    Some(ref nm) => Some(nm@),
                },
                spec_dc_accumulate(
                    ast.values@,
                    gv,
                    sn,
                    i as int,
                    table_view_samples(signals@),
                    swvals@,
                ) == spec_dc_accumulate(ast.values@, gv, sn, 0, Seq::empty(), Seq::empty()),
            decreases n - i,
        {
            let rec = &ast.values[i];
            match &rec.values {
                Values::Complex(_) => {
                    return Err(PsfError::UnsupportedDataType { got: 12 });
                },
                Values::Real(v) => {
                    if v.len() != 1 {
                        return Err(PsfError::InconsistentSampleCount);
                    }
                    let is_sweep = match &sweep_name {
                        None => false,
                        Some(nm) => crate::ast::bytes_eq(rec.signal.as_slice(), nm.as_slice()),
                    };
                    if is_sweep {
                        swvals.push(v[0]);
                    } else {
                        let key = match groups_get(&groups, rec.signal.as_slice()) {
                            None => vstd::slice::slice_to_vec(rec.signal.as_slice()),
                            Some(k) => vstd::slice::slice_to_vec(k.as_slice()),
                        };
                        let sample = v[0];
                        crate::table::upsert(&mut signals, key, sample);
                    }
                    i = i + 1;
                },
            }
        }
        if ast.sweeps.len() == 1 {
            let nm = match sweep_name {
                Some(nm) => nm,
                None => {
                    proof {
                        assert(false);
                    }
                    unreached()
                },
            };
            return Ok(DcData::Sweep(SweepData { signals, param: (nm, swvals) }));
        }
        let ghost tview = table_view_samples(signals@);
        let m = signals.len();
        let mut scalars: Vec<(Vec<u8>, u64)> = Vec::new();
        let mut j: usize = 0;
        proof {
            assert(table_view(scalars@) =~= Seq::<(Seq<u8>, u64)>::empty());
            if let Ok(rest) = spec_to_op(tview, 0) {
                assert(Seq::<(Seq<u8>, u64)>::empty() + rest =~= rest);
            }
        }
        while j < m
            invariant
                j <= m,
                m == signals@.len(),
                tview == table_view_samples(signals@),
                match spec_to_op(tview, j as int) {
                    Ok(rest) => spec_to_op(tview, 0) == Ok::<Seq<(Seq<u8>, u64)>, PsfError>(
                        table_view(scalars@) + rest,
                    ),
                    Err(e) => spec_to_op(tview, 0) == Err::<Seq<(Seq<u8>, u64)>, PsfError>(e),
                },
            decreases m - j,
        {
            if signals[j].1.len() != 1 {
                return Err(PsfError::InconsistentSampleCount);
            }
            let ghost pre = scalars@;
            let name = vstd::slice::slice_to_vec(signals[j].0.as_slice());
            let scalar = signals[j].1[0];
            scalars.push((name, scalar));
            proof {
                assert(table_view(scalars@) =~= table_view(pre) + seq![
                    (tview[j as int].0, tview[j as int].1[0]),
                ]);
                if let Ok(rest2) = spec_to_op(tview, j + 1) {
                    assert(table_view(pre) + (seq![(tview[j as int].0, tview[j as int].1[0])]
                        + rest2) =~= (table_view(pre) + seq![
                        (tview[j as int].0, tview[j as int].1[0]),
                    ]) + rest2);
                }
            }
            j = j + 1;
        }
        proof {
            assert(table_view(scalars@) + Seq::<(Seq<u8>, u64)>::empty() =~= table_view(scalars@));
        }
        Ok(DcData::Op(OpData { signals: scalars }))
    }
}

impl OpData {
    /// The scalar stored under `name`, if any.
    pub fn signal(&self, name: &[u8]) -> (r: Option<u64>)
        ensures
            match r {
                Some(v) => spec_assoc(table_view(self.signals@), name@) == Some(v),
                None => spec_assoc(table_view(self.signals@), name@) is None,
            },
    {
        let n = self.signals.len();
        proof {
            assert(table_view(self.signals@).take(n as int) =~= table_view(self.signals@));
        }
        let mut i: usize = n;
        while i > 0
            invariant
                i <= n,
                n == self.signals@.len(),
                spec_assoc(table_view(self.signals@), name@) == spec_assoc(
                    table_view(self.signals@).take(i as int),
                    name@,
                ),
            decreases i,
        {
            i = i - 1;
            proof {
                assert(table_view(self.signals@).take(i + 1).drop_last() =~= table_view(
                    self.signals@,
                ).take(i as int));
                assert(table_view(self.signals@).take(i + 1).last() == table_view(
                    self.signals@,
                )[i as int]);
            }
            if crate::ast::bytes_eq(self.signals[i].0.as_slice(), name) {
                return Some(self.signals[i].1);
            }
        }
        proof {
            assert(table_view(self.signals@).take(0) =~= Seq::<(Seq<u8>, u64)>::empty());
        }
        None
    }
}

impl SweepData {
    /// The sample vector stored under `name`, if any.
    pub fn signal(&self, name: &[u8]) -> (r: Option<&Vec<u64>>)
        ensures
            match r {
                Some(v) => spec_assoc(table_view_samples(self.signals@), name@) == Some(v@),
                None => spec_assoc(table_view_samples(self.signals@), name@) is None,
            },
    {
        table_get(&self.signals, name)
    }
}

} // verus!
