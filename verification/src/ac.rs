use vstd::prelude::*;

use crate::ascii;
use crate::ast::Values;
use crate::errors::PsfError;
use crate::search::{bin_search_before, sorted_by_key, spec_f64_key};
use crate::table::{
    build_groups, freq_key, groups_get, groups_view, spec_assoc, spec_groups, spec_upsert,
    table_get, table_view_samples,
};

verus! {

/// An AC-analysis view: name-indexed complex sample vectors, with the sweep
/// variable's samples in the `freq` vector. Samples are raw IEEE-754 bit
/// patterns, a (real, imaginary) pair per point.
#[derive(Debug, Clone, PartialEq)]
pub struct AcData {
    pub signals: Vec<(Vec<u8>, Vec<(u64, u64)>)>,
    pub freq: Vec<u64>,
}

/// Folds value records into the AC view from record `i` on: a record named
/// `"freq"` must hold exactly one real sample, which extends the frequency
/// axis; any other record must hold exactly one complex sample under a
/// declared signal name, which extends that signal's vector. A record
/// carrying any other sample count is an inconsistency, never silently
/// truncated.
pub open spec fn spec_ac_accumulate(
    values: Seq<ascii::SignalValues>,
    groups: Seq<(Seq<u8>, Seq<u8>)>,
    i: int,
    sigs: Seq<(Seq<u8>, Seq<(u64, u64)>)>,
    freq: Seq<u64>,
) -> Result<(Seq<(Seq<u8>, Seq<(u64, u64)>)>, Seq<u64>), PsfError>
    decreases values.len() - i,
{
    if i < 0 || i >= values.len() {
        Ok((sigs, freq))
    } else if values[i].signal@ == freq_key() {
        match values[i].values {
            Values::Real(v) => if v@.len() != 1 {
                Err(PsfError::InconsistentSampleCount)
            } else {
                spec_ac_accumulate(values, groups, i + 1, sigs, freq.push(v@[0]))
            },
            Values::Complex(_) => Err(PsfError::UnsupportedDataType { got: 12 }),
        }
    } else {
        match values[i].values {
            Values::Complex(c) => if c@.len() != 1 {
                Err(PsfError::InconsistentSampleCount)
            } else {
                match spec_assoc(groups, values[i].signal@) {
                    None => Err(PsfError::UndeclaredSignal),
                    Some(key) => spec_ac_accumulate(
                        values,
                        groups,
                        i + 1,
                        spec_upsert(sigs, key, c@[0]),
                        freq,
                    ),
                }
            },
            Values::Real(_) => Err(PsfError::UnsupportedDataType { got: 11 }),
        }
    }
}

/// The model of [`AcData::from_ast`]: the alias map, then every value
/// record folded into the frequency axis or its signal's complex vector.
pub open spec fn spec_ac_from_ast(
    traces: Seq<ascii::Trace>,
    values: Seq<ascii::SignalValues>,
) -> Result<(Seq<(Seq<u8>, Seq<(u64, u64)>)>, Seq<u64>), PsfError> {
    match spec_groups(traces, 0) {
        Err(e) => Err(e),
        Ok(g) => spec_ac_accumulate(values, g, 0, Seq::empty(), Seq::empty()),
    }
}

impl AcData {
    /// Builds the AC view from the external grammar-based tree: a `"freq"`
    /// record's single real sample extends the frequency axis, every other
    /// record's single complex sample extends the signal the alias map
    /// selects.
    #[verifier::loop_isolation(false)]
    #[verifier::rlimit(60)]
    pub fn from_ast(ast: &ascii::PsfAst) -> (r: Result<AcData, PsfError>)
        ensures
            match r {
                Ok(a) => spec_ac_from_ast(ast.traces@, ast.values@) == Ok::<
                    (Seq<(Seq<u8>, Seq<(u64, u64)>)>, Seq<u64>),
                    PsfError,
                >((table_view_samples(a.signals@), a.freq@)),
                Err(e) => spec_ac_from_ast(ast.traces@, ast.values@) == Err::<
                    (Seq<(Seq<u8>, Seq<(u64, u64)>)>, Seq<u64>),
                    PsfError,
                >(e),
            },
    {
        let groups = match build_groups(&ast.traces) {
            Ok(g) => g,
            Err(e) => {
                return Err(e);
            },
        };
        let ghost gv = groups_view(groups@);
        let fk = crate::table::freq_key_bytes();
        let mut signals: Vec<(Vec<u8>, Vec<(u64, u64)>)> = Vec::new();
        let mut freq: Vec<u64> = Vec::new();
        proof {
            assert(table_view_samples(signals@) =~= Seq::<(Seq<u8>, Seq<(u64, u64)>)>::empty());
            assert(freq@ =~= Seq::<u64>::empty());
        }
        let n = ast.values.len();
        let mut i: usize = 0;
        while i < n
            invariant
                i <= n,
                n == ast.values@.len(),
                fk@ == freq_key(),
                spec_ac_accumulate(ast.values@, gv, i as int, table_view_samples(signals@), freq@)
                    == spec_ac_accumulate(ast.values@, gv, 0, Seq::empty(), Seq::empty()),
            decreases n - i,
        {
            let rec = &ast.values[i];
            if crate::ast::bytes_eq(rec.signal.as_slice(), fk.as_slice()) {
                match &rec.values {
                    Values::Real(v) => {
                        if v.len() != 1 {
                            return Err(PsfError::InconsistentSampleCount);
                        }
                        freq.push(v[0]);
                    },
                    Values::Complex(_) => {
                        return Err(PsfError::UnsupportedDataType { got: 12 });
                    },
                }
            } else {
                match &rec.values {
                    Values::Complex(c) => {
                        if c.len() != 1 {
                            return Err(PsfError::InconsistentSampleCount);
                        }
                        let key = match groups_get(&groups, rec.signal.as_slice()) {
                            None => {
                                return Err(PsfError::UndeclaredSignal);
                            },
                            Some(k) => vstd::slice::slice_to_vec(k.as_slice()),
                        };
                        let sample = c[0];
                        crate::table::upsert(&mut signals, key, sample);
                    },
                    Values::Real(_) => {
                        return Err(PsfError::UnsupportedDataType { got: 11 });
                    },
                }
            }
            i = i + 1;
        }
        Ok(AcData { signals, freq })
    }

    /// The index of the largest frequency at or below `f` (as IEEE-754 bit
    /// patterns under the total order), or nothing if `f` precedes the first
    /// point. The frequency axis is assumed sorted, as the format guarantees.
    pub fn idx_before_freq(&self, f: u64) -> (r: Option<usize>)
        requires
            sorted_by_key(self.freq@),
        ensures
            match r {
                Some(i) => i < self.freq@.len() && spec_f64_key(self.freq@[i as int])
                    <= spec_f64_key(f) && (i + 1 == self.freq@.len() || spec_f64_key(
                    self.freq@[i + 1],
                ) > spec_f64_key(f)),
                None => self.freq@.len() == 0 || spec_f64_key(self.freq@[0]) > spec_f64_key(f),
            },
    {
        bin_search_before(self.freq.as_slice(), f)
    }

    /// The complex sample vector stored under `name`, if any.
    pub fn signal(&self, name: &[u8]) -> (r: Option<&Vec<(u64, u64)>>)
        ensures
            match r {
                Some(v) => spec_assoc(table_view_samples(self.signals@), name@) == Some(v@),
                None => spec_assoc(table_view_samples(self.signals@), name@) is None,
            },
    {
        table_get(&self.signals, name)
    }
}

} // verus!
