use vstd::prelude::*;

use crate::ascii;
use crate::ast::{PsfAst, SpecPsfAst, SpecValues, Values};
use crate::errors::PsfError;
use crate::search::{bin_search_before, sorted_by_key, spec_f64_key};
use crate::table::{
    build_groups, groups_get, groups_view, lemma_upsert_absent, lemma_upsert_at,
    spec_accumulate_values, spec_assoc, spec_groups, table_get, table_view_samples, time_key,
    time_key_bytes, upsert,
};
use crate::values::spec_flatten;

verus! {

/// A transient-analysis view: name-indexed real sample vectors, with the
/// sweep variable stored under the literal key `"time"`. Samples are raw
/// IEEE-754 bit patterns.
#[derive(Debug, Clone, PartialEq)]
pub struct TransientData {
    pub signals: Vec<(Vec<u8>, Vec<u64>)>,
    pub time: Vec<u8>,
}

/// A decoded sample vector read as real samples: a complex vector contributes
/// the real component of each pair, and an absent vector is empty.
pub open spec fn to_real(o: Option<SpecValues>) -> Seq<u64> {
    match o {
        None => Seq::empty(),
        Some(SpecValues::Real(v)) => v,
        Some(SpecValues::Complex(c)) => Seq::new(c.len(), |i: int| c[i].0),
    }
}

/// The model of [`TransientData::from_binary`]: the sweep variable's vector
/// under the key `"time"`, then every leaf signal's vector under its own name
/// in flattened trace order; group names are never keys. The tree must hold
/// exactly one sweep variable.
pub open spec fn spec_transient_from_binary(ast: SpecPsfAst) -> Result<
    Seq<(Seq<u8>, Seq<u64>)>,
    PsfError,
> {
    if ast.sweeps.len() != 1 {
        Err(PsfError::UnsupportedLayout)
    } else {
        let fl = spec_flatten(ast.traces);
        Ok(
            seq![(time_key(), to_real(crate::ast::spec_values_lookup(ast.values, ast.sweeps[0].id)))]
                + Seq::new(
                fl.len(),
                |k: int| (fl[k].name, to_real(crate::ast::spec_values_lookup(ast.values, fl[k].id))),
            ),
        )
    }
}

/// Reads a decoded vector as real samples, taking real components of a
/// complex vector.
fn values_to_real(o: Option<&Values>) -> (r: Vec<u64>)
    ensures
        r@ == to_real(match o {
            Some(v) => Some(v@),
            None => None,
        }),
{
    match o {
        None => Vec::new(),
        Some(Values::Real(v)) => vstd::slice::slice_to_vec(v.as_slice()),
        Some(Values::Complex(c)) => {
            let n = c.len();
            let mut out: Vec<u64> = Vec::new();
            let mut i: usize = 0;
            while i < n
                invariant
                    i <= n,
                    n == c@.len(),
                    out@ == Seq::new(i as nat, |j: int| c@[j].0),
                decreases n - i,
            {
                out.push(c[i].0);
                proof {
                    assert(out@ =~= Seq::new((i + 1) as nat, |j: int| c@[j].0));
                }
                i = i + 1;
            }
            out
        },
    }
}

impl TransientData {
    /// Builds the transient view from a windowed binary decode: the sweep
    /// variable is renamed to the literal key `"time"`, group members are
    /// exposed individually under their own names, and a complex signal
    /// contributes the real component of each sample pair.
    #[verifier::loop_isolation(false)]
    #[verifier::rlimit(60)]
    pub fn from_binary(ast: &PsfAst) -> (r: Result<TransientData, PsfError>)
        ensures
            match r {
                Ok(t) => spec_transient_from_binary(ast@) == Ok::<Seq<(Seq<u8>, Seq<u64>)>, PsfError>(
                    table_view_samples(t.signals@),
                ) && t.time@ == time_key(),
                Err(e) => spec_transient_from_binary(ast@) == Err::<
                    Seq<(Seq<u8>, Seq<u64>)>,
                    PsfError,
                >(e),
            },
    {
        if ast.sweeps.len() != 1 {
            return Err(PsfError::UnsupportedLayout);
        }
        let ghost fl = spec_flatten(ast@.traces);
        let ghost target = (seq![
            (time_key(), to_real(crate::ast::spec_values_lookup(ast@.values, ast@.sweeps[0].id))),
        ] + Seq::new(
            fl.len(),
            |k: int| (fl[k].name, to_real(crate::ast::spec_values_lookup(ast@.values, fl[k].id))),
        ));
        let flat = crate::values::flatten_traces(&ast.traces);
        let mut signals: Vec<(Vec<u8>, Vec<u64>)> = Vec::new();
        let sweep_vec = values_to_real(ast.values.get(ast.sweeps[0].id));
        signals.push((time_key_bytes(), sweep_vec));
        proof {
            assert(ast@.sweeps[0].id == ast.sweeps@[0]@.id);
            assert(table_view_samples(signals@) =~= target.take(1));
        }
        let n = flat.len();
        let mut k: usize = 0;
        while k < n
            invariant
                k <= n,
                n == flat@.len(),
                table_view_samples(signals@) == target.take(1 + k),
            decreases n - k,
        {
            let ghost pre = signals@;
            let name = vstd::slice::slice_to_vec(flat[k].name.as_slice());
            let vec = values_to_real(ast.values.get(flat[k].id));
            signals.push((name, vec));
            proof {
                assert(flat@[k as int].id == fl[k as int].id);
                assert(flat@[k as int].name@ == fl[k as int].name);
                assert(target[1 + k] == (
                    fl[k as int].name,
                    to_real(crate::ast::spec_values_lookup(ast@.values, fl[k as int].id)),
                ));
                assert(table_view_samples(signals@) =~= table_view_samples(pre).push(
                    target[1 + k],
                ));
                assert(target.take(1 + k + 1) =~= target.take(1 + k).push(target[1 + k]));
            }
            k = k + 1;
        }
        proof {
            assert(target.take(1 + n) =~= target);
        }
        Ok(TransientData { signals, time: time_key_bytes() })
    }

    /// Builds the transient view from the external grammar-based tree: the
    /// trace list gives the group-to-member alias map (plus the identity
    /// entry for `"time"`), and each value record's single sample is appended
    /// to the signal the alias map selects; a record not carrying exactly one
    /// sample is an inconsistency.
    #[verifier::loop_isolation(false)]
    #[verifier::rlimit(60)]
    pub fn from_ast(ast: &ascii::PsfAst) -> (r: Result<TransientData, PsfError>)
        ensures
            match r {
                Ok(t) => spec_transient_from_ascii(ast.traces@, ast.values@) == Ok::<
                    Seq<(Seq<u8>, Seq<u64>)>,
                    PsfError,
                >(table_view_samples(t.signals@)) && t.time@ == time_key(),
                Err(e) => spec_transient_from_ascii(ast.traces@, ast.values@) == Err::<
                    Seq<(Seq<u8>, Seq<u64>)>,
                    PsfError,
                >(e),
            },
    {
        let mut groups = match build_groups(&ast.traces) {
            Ok(g) => g,
            Err(e) => {
                return Err(e);
            },
        };
        let ghost gpre = groups_view(groups@);
        groups.push((time_key_bytes(), time_key_bytes()));
        proof {
            assert(groups_view(groups@) =~= gpre.push((time_key(), time_key())));
        }
        let ghost gv = groups_view(groups@);
        let mut signals: Vec<(Vec<u8>, Vec<u64>)> = Vec::new();
        proof {
            assert(table_view_samples(signals@) =~= Seq::<(Seq<u8>, Seq<u64>)>::empty());
        }
        let n = ast.values.len();
        let mut i: usize = 0;
        while i < n
            invariant
                i <= n,
                n == ast.values@.len(),
                spec_accumulate_values(ast.values@, gv, i as int, table_view_samples(signals@))
                    == spec_accumulate_values(ast.values@, gv, 0, Seq::empty()),
            decreases n - i,
        {
            let rec = &ast.values[i];
            match &rec.values {
                Values::Complex(_) => {
                    return Err(PsfError::UnsupportedDataType { got: 12 });
                },
                Values::Real(v) => {
                    if v.len() != 1 {
                        return Err(PsfError::InconsistentSampleCount);
                    }
                    let key = match groups_get(&groups, rec.signal.as_slice()) {
                        None => {
                            return Err(PsfError::UndeclaredSignal);
                        },
                        Some(k) => vstd::slice::slice_to_vec(k.as_slice()),
                    };
                    let sample = v[0];
                    upsert(&mut signals, key, sample);
                    i = i + 1;
                },
            }
        }
        Ok(TransientData { signals, time: time_key_bytes() })
    }

    /// The index of the latest time at or before `t` (as IEEE-754 bit
    /// patterns under the total order), or nothing if `t` precedes the first
    /// sample. The time vector is assumed sorted, as the format guarantees.
    pub fn idx_before_time(&self, t: u64) -> (r: Option<usize>)
        requires
            spec_assoc(table_view_samples(self.signals@), self.time@) is Some,
            sorted_by_key(spec_assoc(table_view_samples(self.signals@), self.time@).unwrap()),
        ensures
            ({
                let tv = spec_assoc(table_view_samples(self.signals@), self.time@).unwrap();
                match r {
                    Some(i) => i < tv.len() && spec_f64_key(tv[i as int]) <= spec_f64_key(t) && (i
                        + 1 == tv.len() || spec_f64_key(tv[i + 1]) > spec_f64_key(t)),
                    None => tv.len() == 0 || spec_f64_key(tv[0]) > spec_f64_key(t),
                }
            }),
    {
        let tv = match table_get(&self.signals, self.time.as_slice()) {
            Some(v) => v,
            None => {
                proof {
                    assert(false);
                }
                unreached()
            },
        };
        bin_search_before(tv.as_slice(), t)
    }

    /// The sample vector stored under `name`, if any.
    pub fn signal(&self, name: &[u8]) -> (r: Option<&Vec<u64>>)
        ensures
            match r {
                Some(v) => spec_assoc(table_view_samples(self.signals@), name@) == Some(v@),
                None => spec_assoc(table_view_samples(self.signals@), name@) is None,
            },
    {
        table_get(&self.signals, name)
    }

    /// Whether both views expose the same signal names and, under every name,
    /// bitwise-identical sample vectors. This is the exact-equality check the
    /// cross-format comparison rests on; a tolerance-based comparison is a
    /// floating-point matter for the caller.
    pub fn eq_exact(&self, other: &TransientData) -> (r: bool)
        ensures
            r <==> tables_equiv(
                table_view_samples(self.signals@),
                table_view_samples(other.signals@),
            ),
    {
        tables_equiv_check(&self.signals, &other.signals)
    }
}

/// Whether two sample tables agree as maps: every name of either table looks
/// up to the same vector in both.
pub open spec fn tables_equiv(a: Seq<(Seq<u8>, Seq<u64>)>, b: Seq<(Seq<u8>, Seq<u64>)>) -> bool {
    &&& forall|i: int|
        0 <= i < a.len() ==> spec_assoc(b, (#[trigger] a[i]).0) == spec_assoc(a, a[i].0)
    &&& forall|i: int|
        0 <= i < b.len() ==> spec_assoc(a, (#[trigger] b[i]).0) == spec_assoc(b, b[i].0)
}

/// Whether two sample vectors hold the same bit patterns.
fn u64s_eq(a: &[u64], b: &[u64]) -> (r: bool)
    ensures
        r <==> a@ == b@,
{
    if a.len() != b.len() {
        proof {
            assert(a@.len() != b@.len());
        }
        return false;
    }
    let n = a.len();
    let mut i: usize = 0;
    while i < n
        invariant
            i <= n,
            n == a@.len(),
            n == b@.len(),
            forall|j: int| 0 <= j < i ==> a@[j] == b@[j],
        decreases n - i,
    {
        if a[i] != b[i] {
            return false;
        }
        i = i + 1;
    }
    proof {
        assert(a@ =~= b@);
    }
    true
}

/// Checks that both tables agree as maps on every name either one mentions.
#[verifier::loop_isolation(false)]
#[verifier::rlimit(60)]
fn tables_equiv_check(a: &Vec<(Vec<u8>, Vec<u64>)>, b: &Vec<(Vec<u8>, Vec<u64>)>) -> (r: bool)
    ensures
        r <==> tables_equiv(table_view_samples(a@), table_view_samples(b@)),
{
    let ghost av = table_view_samples(a@);
    let ghost bv = table_view_samples(b@);
    let n = a.len();
    let mut i: usize = 0;
    while i < n
        invariant
            i <= n,
            n == a@.len(),
            forall|j: int| 0 <= j < i ==> spec_assoc(bv, (#[trigger] av[j]).0) == spec_assoc(av, av[j].0),
        decreases n - i,
    {
        proof {
            crate::table::lemma_assoc_present(av, i as int);
            assert(av[i as int].0 == a@[i as int].0@);
        }
        let mine = table_get(a, a[i].0.as_slice());
        let theirs = table_get(b, a[i].0.as_slice());
        match (mine, theirs) {
            (Some(x), Some(y)) => {
                if !u64s_eq(x.as_slice(), y.as_slice()) {
                    return false;
                }
            },
            _ => {
                return false;
            },
        }
        i = i + 1;
    }
    let m = b.len();
    let mut k: usize = 0;
    while k < m
        invariant
            k <= m,
            m == b@.len(),
            forall|j: int| 0 <= j < n ==> spec_assoc(bv, (#[trigger] av[j]).0) == spec_assoc(av, av[j].0),
            forall|j: int| 0 <= j < k ==> spec_assoc(av, (#[trigger] bv[j]).0) == spec_assoc(bv, bv[j].0),
        decreases m - k,
    {
        proof {
            crate::table::lemma_assoc_present(bv, k as int);
            assert(bv[k as int].0 == b@[k as int].0@);
        }
        let mine = table_get(a, b[k].0.as_slice());
        let theirs = table_get(b, b[k].0.as_slice());
        match (mine, theirs) {
            (Some(x), Some(y)) => {
                if !u64s_eq(x.as_slice(), y.as_slice()) {
                    return false;
                }
            },
            _ => {
                return false;
            },
        }
        k = k + 1;
    }
    true
}

/// The model of [`TransientData::from_ast`]: the alias map (with
/// the identity entry for `"time"` appended), then every value record's
/// single sample appended to the translated signal's vector in record order.
pub open spec fn spec_transient_from_ascii(
    traces: Seq<ascii::Trace>,
    values: Seq<ascii::SignalValues>,
) -> Result<Seq<(Seq<u8>, Seq<u64>)>, PsfError> {
    match spec_groups(traces, 0) {
        Err(e) => Err(e),
        Ok(g) => spec_accumulate_values(values, g.push((time_key(), time_key())), 0, Seq::empty()),
    }
}


/// The sweep variable's vector as a transient view stores it: the decoded
/// samples read as reals.
pub open spec fn sweep_of(ast: SpecPsfAst) -> Seq<u64> {
    to_real(crate::ast::spec_values_lookup(ast.values, ast.sweeps[0].id))
}

/// The leaf part of the binary transient table: each flattened leaf's name
/// with its samples read as reals.
pub open spec fn leaf_table(ast: SpecPsfAst) -> Seq<(Seq<u8>, Seq<u64>)> {
    let fl = spec_flatten(ast.traces);
    Seq::new(
        fl.len(),
        |k: int| (fl[k].name, to_real(crate::ast::spec_values_lookup(ast.values, fl[k].id))),
    )
}

/// Whether the value records from index `i` on render the simulation
/// `(sweep, leaves)` sweep point by sweep point from point `t` on: each point
/// contributes one single-sample record for the sweep variable under the key
/// `"time"`, then one single-sample record per leaf under the leaf's own
/// name, and nothing follows the last point. This is the stream shape an
/// external producer of the human-readable dialect emits for a windowed
/// simulation.
pub open spec fn rendered_from(
    values: Seq<ascii::SignalValues>,
    i: int,
    sweep: Seq<u64>,
    leaves: Seq<(Seq<u8>, Seq<u64>)>,
    t: int,
) -> bool
    decreases sweep.len() - t,
{
    if !(0 <= t < sweep.len()) {
        t == sweep.len() && i == values.len()
    } else {
        &&& 0 <= i
        &&& i + 1 + leaves.len() <= values.len()
        &&& values[i].signal@ == time_key()
        &&& (values[i].values matches Values::Real(v) && v@ == seq![sweep[t]])
        &&& forall|k: int|
            0 <= k < leaves.len() ==> ((#[trigger] values[i + 1 + k]).signal@ == leaves[k].0 && (
            values[i + 1 + k].values matches Values::Real(v) && v@ == seq![leaves[k].1[t]]))
        &&& rendered_from(values, i + 1 + leaves.len(), sweep, leaves, t + 1)
    }
}

/// Whether the leaf names are usable as table keys: none is the literal
/// `"time"`, no two coincide, and every leaf holds one sample per sweep
/// point.
pub open spec fn well_named(leaves: Seq<(Seq<u8>, Seq<u64>)>, sweep_len: int) -> bool {
    &&& forall|k: int| 0 <= k < leaves.len() ==> (#[trigger] leaves[k]).0 != time_key()
    &&& forall|j: int, k: int| 0 <= j < k < leaves.len() ==> leaves[j].0 != leaves[k].0
    &&& forall|k: int| 0 <= k < leaves.len() ==> (#[trigger] leaves[k]).1.len() == sweep_len
}

/// Whether the alias map sends `"time"` and every leaf name to itself.
pub open spec fn identity_on(g: Seq<(Seq<u8>, Seq<u8>)>, leaves: Seq<(Seq<u8>, Seq<u64>)>) -> bool {
    &&& spec_assoc(g, time_key()) == Some(time_key())
    &&& forall|k: int|
        0 <= k < leaves.len() ==> spec_assoc(g, (#[trigger] leaves[k]).0) == Some(leaves[k].0)
}

/// The table after the first `t` sweep points, with point `t`'s sweep sample
/// already folded in and its first `k` leaf samples folded in.
pub open spec fn table_mid(sweep: Seq<u64>, leaves: Seq<(Seq<u8>, Seq<u64>)>, t: int, k: int) -> Seq<
    (Seq<u8>, Seq<u64>),
> {
    seq![(time_key(), sweep.take(t + 1))] + Seq::new(
        leaves.len(),
        |j: int|
            (
                leaves[j].0,
                leaves[j].1.take(
                    if j < k {
                        t + 1
                    } else {
                        t
                    },
                ),
            ),
    )
}

/// The table after the first `t` whole sweep points.
pub open spec fn table_at(sweep: Seq<u64>, leaves: Seq<(Seq<u8>, Seq<u64>)>, t: int) -> Seq<
    (Seq<u8>, Seq<u64>),
> {
    seq![(time_key(), sweep.take(t))] + Seq::new(
        leaves.len(),
        |j: int| (leaves[j].0, leaves[j].1.take(t)),
    )
}

/// The partial table during the very first sweep point, after its sweep
/// sample and its first `k` leaf samples: only those entries exist yet.
pub open spec fn table_first(sweep: Seq<u64>, leaves: Seq<(Seq<u8>, Seq<u64>)>, k: int) -> Seq<
    (Seq<u8>, Seq<u64>),
> {
    seq![(time_key(), seq![sweep[0]])] + Seq::new(
        k as nat,
        |j: int| (leaves[j].0, seq![leaves[j].1[0]]),
    )
}

/// Folding the leaf records of the first sweep point appends one entry per
/// leaf, in leaf order.
pub proof fn lemma_fold_first_row(
    values: Seq<ascii::SignalValues>,
    g: Seq<(Seq<u8>, Seq<u8>)>,
    i0: int,
    sweep: Seq<u64>,
    leaves: Seq<(Seq<u8>, Seq<u64>)>,
    k: int,
)
    requires
        0 <= k <= leaves.len(),
        sweep.len() > 0,
        well_named(leaves, sweep.len() as int),
        identity_on(g, leaves),
        rendered_from(values, i0, sweep, leaves, 0),
    ensures
        spec_accumulate_values(values, g, i0 + 1 + k, table_first(sweep, leaves, k))
            == spec_accumulate_values(values, g, i0 + 1 + leaves.len(), table_mid(sweep, leaves, 0, leaves.len() as int)),
    decreases leaves.len() - k,
{
    if k == leaves.len() {
        assert(table_first(sweep, leaves, k) =~~= table_mid(sweep, leaves, 0, leaves.len() as int));
    } else {
        let acc = table_first(sweep, leaves, k);
        let name = leaves[k].0;
        let v = leaves[k].1[0];
        assert(forall|j: int| 0 <= j < acc.len() ==> (#[trigger] acc[j]).0 != name);
        lemma_upsert_absent(acc, name, v);
        assert(acc.push((name, seq![v])) =~= table_first(sweep, leaves, k + 1));
        lemma_fold_first_row(values, g, i0, sweep, leaves, k + 1);
    }
}

/// Folding the leaf records of a later sweep point extends each leaf's
/// vector by its sample, in leaf order.
pub proof fn lemma_fold_row(
    values: Seq<ascii::SignalValues>,
    g: Seq<(Seq<u8>, Seq<u8>)>,
    i0: int,
    sweep: Seq<u64>,
    leaves: Seq<(Seq<u8>, Seq<u64>)>,
    t: int,
    k: int,
)
    requires
        0 <= t < sweep.len(),
        0 <= k <= leaves.len(),
        well_named(leaves, sweep.len() as int),
        identity_on(g, leaves),
        rendered_from(values, i0, sweep, leaves, t),
    ensures
        spec_accumulate_values(values, g, i0 + 1 + k, table_mid(sweep, leaves, t, k))
            == spec_accumulate_values(values, g, i0 + 1 + leaves.len(), table_mid(sweep, leaves, t, leaves.len() as int)),
    decreases leaves.len() - k,
{
    if k < leaves.len() {
        let acc = table_mid(sweep, leaves, t, k);
        let name = leaves[k].0;
        let v = leaves[k].1[t];
        assert(acc[1 + k].0 == name);
        assert(forall|j: int| 0 <= j < 1 + k ==> (#[trigger] acc[j]).0 != name);
        lemma_upsert_at(acc, name, v, 1 + k);
        assert(leaves[k].1.take(t).push(v) =~= leaves[k].1.take(t + 1));
        assert(acc.update(1 + k, (acc[1 + k].0, acc[1 + k].1.push(v))) =~= table_mid(
            sweep,
            leaves,
            t,
            k + 1,
        ));
        lemma_fold_row(values, g, i0, sweep, leaves, t, k + 1);
    }
}

/// Folding all records from sweep point `t` on completes the table.
pub proof fn lemma_fold_columns(
    values: Seq<ascii::SignalValues>,
    g: Seq<(Seq<u8>, Seq<u8>)>,
    i: int,
    sweep: Seq<u64>,
    leaves: Seq<(Seq<u8>, Seq<u64>)>,
    t: int,
)
    requires
        0 < t <= sweep.len(),
        well_named(leaves, sweep.len() as int),
        identity_on(g, leaves),
        rendered_from(values, i, sweep, leaves, t),
    ensures
        spec_accumulate_values(values, g, i, table_at(sweep, leaves, t)) == Ok::<
            Seq<(Seq<u8>, Seq<u64>)>,
            PsfError,
        >(table_at(sweep, leaves, sweep.len() as int)),
    decreases sweep.len() - t,
{
    if t == sweep.len() {
    } else {
        let acc = table_at(sweep, leaves, t);
        assert(acc[0].0 == time_key());
        lemma_upsert_at(acc, time_key(), sweep[t], 0);
        assert(sweep.take(t).push(sweep[t]) =~= sweep.take(t + 1));
        assert(acc.update(0, (acc[0].0, acc[0].1.push(sweep[t]))) =~= table_mid(sweep, leaves, t, 0));
        lemma_fold_row(values, g, i, sweep, leaves, t, 0);
        assert(table_mid(sweep, leaves, t, leaves.len() as int) =~= table_at(sweep, leaves, t + 1));
        lemma_fold_columns(values, g, i + 1 + leaves.len(), sweep, leaves, t + 1);
    }
}

/// The alias map of a trace list of standalone signals sends each signal
/// name to itself, entry by entry.
pub proof fn lemma_identity_groups(traces: Seq<ascii::Trace>, i: int)
    requires
        0 <= i <= traces.len(),
        forall|j: int|
            0 <= j < traces.len() ==> (#[trigger] traces[j]) matches ascii::Trace::Signal { .. },
    ensures
        spec_groups(traces, i) matches Ok(g) && g.len() == traces.len() - i && forall|j: int|
            0 <= j < g.len() ==> #[trigger] g[j] == match traces[i + j] {
                ascii::Trace::Signal { name, .. } => (name@, name@),
                ascii::Trace::Group { .. } => (Seq::<u8>::empty(), Seq::<u8>::empty()),
            },
    decreases traces.len() - i,
{
    if i < traces.len() {
        lemma_identity_groups(traces, i + 1);
        match spec_groups(traces, i + 1) {
            Ok(rest) => {
                match traces[i] {
                    ascii::Trace::Signal { name, .. } => {
                        assert(forall|j: int|
                            1 <= j < (seq![(name@, name@)] + rest).len() ==> #[trigger] (seq![
                                (name@, name@),
                            ] + rest)[j] == rest[j - 1]);
                    },
                    ascii::Trace::Group { .. } => {},
                }
            },
            Err(_) => {},
        }
    }
}

/// Looking an identity entry's own key up in an identity alias map gives the
/// key back, whichever entry wins.
pub proof fn lemma_assoc_identity(g: Seq<(Seq<u8>, Seq<u8>)>, name: Seq<u8>)
    requires
        forall|j: int| 0 <= j < g.len() ==> (#[trigger] g[j]).1 == g[j].0,
        exists|j: int| 0 <= j < g.len() && (#[trigger] g[j]).0 == name,
    ensures
        spec_assoc(g, name) == Some(name),
    decreases g.len(),
{
    if g.last().0 != name {
        let j = choose|j: int| 0 <= j < g.len() && (#[trigger] g[j]).0 == name;
        assert(g.drop_last()[j] == g[j]);
        assert(forall|jj: int|
            0 <= jj < g.drop_last().len() ==> (#[trigger] g.drop_last()[jj]).1 == g.drop_last()[jj].0);
        lemma_assoc_identity(g.drop_last(), name);
    }
}

/// Cross-format equivalence: when the external producer renders exactly the
/// simulation a binary decode holds — one standalone trace per flattened
/// leaf under the leaf's own name, and value records enumerating, sweep
/// point by sweep point, the sweep sample under `"time"` and then each
/// leaf's sample — the transient views built from the two formats hold the
/// same table, so the bitwise comparison [`TransientData::eq_exact`] accepts
/// them. The simulation must hold at least one sweep point (a pointless one
/// renders no records at all), the leaf names must be distinct, and none may
/// be the literal `"time"`.
pub proof fn lemma_cross_format_equivalence(
    ast: SpecPsfAst,
    a_traces: Seq<ascii::Trace>,
    a_values: Seq<ascii::SignalValues>,
)
    requires
        ast.sweeps.len() == 1,
        sweep_of(ast).len() > 0,
        well_named(leaf_table(ast), sweep_of(ast).len() as int),
        a_traces.len() == spec_flatten(ast.traces).len(),
        forall|k: int|
            0 <= k < a_traces.len() ==> ((#[trigger] a_traces[k]) matches ascii::Trace::Signal {
                name,
                ..
            } && name@ == spec_flatten(ast.traces)[k].name),
        rendered_from(a_values, 0, sweep_of(ast), leaf_table(ast), 0),
    ensures
        spec_transient_from_ascii(a_traces, a_values) == spec_transient_from_binary(ast),
{
    let sweep = sweep_of(ast);
    let leaves = leaf_table(ast);
    lemma_identity_groups(a_traces, 0);
    let g0 = match spec_groups(a_traces, 0) {
        Ok(g) => g,
        Err(_) => arbitrary(),
    };
    let g = g0.push((time_key(), time_key()));
    assert(g.last() == (time_key(), time_key()));
    assert(spec_assoc(g, time_key()) == Some(time_key()));
    assert forall|k: int|
        0 <= k < leaves.len() implies spec_assoc(g, (#[trigger] leaves[k]).0) == Some(
        leaves[k].0,
    ) by {
        assert(g0[k] == (leaves[k].0, leaves[k].0));
        assert(g.drop_last() =~= g0);
        assert(forall|j: int| 0 <= j < g0.len() ==> (#[trigger] g0[j]).1 == g0[j].0);
        lemma_assoc_identity(g0, leaves[k].0);
    }
    // The first sweep point builds the table's entries in order.
    let acc0 = Seq::<(Seq<u8>, Seq<u64>)>::empty();
    assert(forall|j: int| 0 <= j < acc0.len() ==> (#[trigger] acc0[j]).0 != time_key());
    lemma_upsert_absent(acc0, time_key(), sweep[0]);
    assert(acc0.push((time_key(), seq![sweep[0]])) =~= table_first(sweep, leaves, 0));
    lemma_fold_first_row(a_values, g, 0, sweep, leaves, 0);
    assert(table_mid(sweep, leaves, 0, leaves.len() as int) =~= table_at(sweep, leaves, 1));
    // The remaining sweep points extend every vector in place.
    lemma_fold_columns(a_values, g, 1 + leaves.len() as int, sweep, leaves, 1);
    assert(sweep.take(sweep.len() as int) =~= sweep);
    assert forall|j: int|
        0 <= j < leaves.len() implies (#[trigger] leaves[j]).1.take(sweep.len() as int) == leaves[j].1 by {
        assert(leaves[j].1.take(sweep.len() as int) =~= leaves[j].1);
    }
    assert(table_at(sweep, leaves, sweep.len() as int) =~= seq![(time_key(), sweep)] + leaves);
}

} // verus!
