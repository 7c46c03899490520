use vstd::prelude::*;

use crate::ast::{
    sigs_view, traces_view, DataType, SignalRef, SignalValues, SpecSignalRef, SpecTrace,
    SpecTypeDef, SpecValues, Trace, TraceId, TypeId, Types, Values,
};
use crate::errors::PsfError;
use crate::reader::{be_u32_at, be_u64_at};
use crate::sections::TAG_VALUE_BLOCK;
use crate::toc::TocEntry;

verus! {

/// The leaf signals of the trace list in file order: group members in group
/// order, standalone signals in their own position. This order is
/// load-bearing: leaf `k` owns the `k`-th `window_size`-byte slab of every
/// window.
pub open spec fn spec_flatten(traces: Seq<SpecTrace>) -> Seq<SpecSignalRef>
    decreases traces.len(),
{
    if traces.len() == 0 {
        Seq::empty()
    } else {
        spec_leaves(traces.first()) + spec_flatten(traces.drop_first())
    }
}

/// The leaf signals of one trace entry.
pub open spec fn spec_leaves(t: SpecTrace) -> Seq<SpecSignalRef> {
    match t {
        SpecTrace::Group(g) => g.signals,
        SpecTrace::Signal(s) => seq![s],
    }
}

/// Flattening one more trace appends exactly its leaves.
pub proof fn lemma_flatten_take_snoc(t: Seq<SpecTrace>, i: int)
    requires
        0 <= i < t.len(),
    ensures
        spec_flatten(t.take(i + 1)) == spec_flatten(t.take(i)) + spec_leaves(t[i]),
    decreases i,
{
    if i == 0 {
        assert(t.take(1).first() == t[0]);
        assert(t.take(1).drop_first() =~= Seq::<SpecTrace>::empty());
        assert(t.take(0) =~= Seq::<SpecTrace>::empty());
        assert(spec_flatten(Seq::<SpecTrace>::empty()) == Seq::<SpecSignalRef>::empty());
        assert(spec_flatten(t.take(1)) == spec_leaves(t[0]) + Seq::<SpecSignalRef>::empty());
        assert(spec_leaves(t[0]) + Seq::<SpecSignalRef>::empty() =~= spec_leaves(t[0]));
        assert(Seq::<SpecSignalRef>::empty() + spec_leaves(t[0]) =~= spec_leaves(t[0]));
    } else {
        let u = t.drop_first();
        lemma_flatten_take_snoc(u, i - 1);
        assert(t.take(i + 1).first() == t[0]);
        assert(t.take(i + 1).drop_first() =~= u.take(i));
        assert(t.take(i).first() == t[0]);
        assert(t.take(i).drop_first() =~= u.take(i - 1));
        assert(u[i - 1] == t[i]);
        assert(spec_flatten(t.take(i + 1)) == spec_leaves(t[0]) + (spec_flatten(u.take(i - 1))
            + spec_leaves(t[i])));
        assert(spec_leaves(t[0]) + (spec_flatten(u.take(i - 1)) + spec_leaves(t[i])) =~= (
        spec_leaves(t[0]) + spec_flatten(u.take(i - 1))) + spec_leaves(t[i]));
    }
}

/// One flattened leaf: what the value decoder needs of a signal.
pub struct FlatSignal {
    pub id: TraceId,
    pub type_id: TypeId,
    pub name: Vec<u8>,
}

/// Whether the flattened vector agrees with the model leaf list.
pub open spec fn flat_matches(f: Seq<FlatSignal>, l: Seq<SpecSignalRef>) -> bool {
    &&& f.len() == l.len()
    &&& forall|i: int|
        0 <= i < l.len() ==> {
            &&& (#[trigger] f[i]).id == l[i].id
            &&& f[i].type_id == l[i].type_id
            &&& f[i].name@ == l[i].name
        }
}

/// Flattens the trace list into its leaf signals, in file order.
#[verifier::loop_isolation(false)]
#[verifier::rlimit(60)]
pub fn flatten_traces(traces: &Vec<Trace>) -> (r: Vec<FlatSignal>)
    ensures
        flat_matches(r@, spec_flatten(traces_view(traces@))),
{
    let n = traces.len();
    let ghost full = traces_view(traces@);
    let mut out: Vec<FlatSignal> = Vec::new();
    let mut i: usize = 0;
    proof {
        assert(full.take(0) =~= Seq::<SpecTrace>::empty());
    }
    while i < n
        invariant
            i <= n,
            flat_matches(out@, spec_flatten(full.take(i as int))),
        decreases n - i,
    {
        proof {
            lemma_flatten_take_snoc(full, i as int);
        }
        let ghost done = spec_flatten(full.take(i as int));
        match &traces[i] {
            Trace::Signal(s) => {
                out.push(
                    FlatSignal {
                        id: s.id,
                        type_id: s.type_id,
                        name: vstd::slice::slice_to_vec(s.name.as_slice()),
                    },
                );
                proof {
                    assert(full[i as int] == traces@[i as int]@);
                    assert(spec_leaves(full[i as int]) =~= seq![s@]);
                }
            },
            Trace::Group(g) => {
                proof {
                    assert(full[i as int] == traces@[i as int]@);
                    assert(spec_leaves(full[i as int]) =~= sigs_view(g.signals@));
                }
                let m = g.signals.len();
                let mut j: usize = 0;
                while j < m
                    invariant
                        j <= m,
                        m == g.signals@.len(),
                        flat_matches(out@, done + sigs_view(g.signals@).take(j as int)),
                    decreases m - j,
                {
                    let s = &g.signals[j];
                    out.push(
                        FlatSignal {
                            id: s.id,
                            type_id: s.type_id,
                            name: vstd::slice::slice_to_vec(s.name.as_slice()),
                        },
                    );
                    proof {
                        assert(sigs_view(g.signals@).take(j + 1) =~= sigs_view(
                            g.signals@,
                        ).take(j as int).push(g.signals@[j as int]@));
                        assert(done + sigs_view(g.signals@).take(j + 1) =~= (done + sigs_view(
                            g.signals@,
                        ).take(j as int)).push(g.signals@[j as int]@));
                    }
                    j = j + 1;
                }
                proof {
                    assert(sigs_view(g.signals@).take(m as int) =~= sigs_view(g.signals@));
                }
            },
        }
        i = i + 1;
    }
    proof {
        assert(full.take(n as int) =~= full);
    }
    out
}


/// The integer views of the collected window descriptors: each entry is the
/// offset of the window's first sweep byte and the window's sample count.
pub open spec fn wins_view(w: Seq<(usize, u32)>) -> Seq<(int, int)> {
    Seq::new(w.len(), |i: int| (w[i].0 as int, w[i].1 as int))
}

/// The model of the window scan: starting at `pos`, each window holds a
/// block-init word whose low 16 bits give the window's sample count `wc`,
/// then `8 * wc` sweep bytes, then `stride` slab bytes. Windows are read
/// until exactly `need` samples have been consumed; a window that would
/// overshoot the total is an inconsistent sample count, one whose samples
/// exceed its slab capacity is a window overflow, and one that runs past the
/// buffer is out of bounds.
pub open spec fn spec_windows(s: Seq<u8>, pos: int, need: int, ws: int, stride: int) -> Result<
    Seq<(int, int)>,
    PsfError,
>
    decreases s.len() - pos,
{
    if stride < 0 {
        Err(PsfError::UnsupportedLayout)
    } else if need <= 0 {
        Ok(Seq::empty())
    } else if pos + 4 > s.len() {
        Err(PsfError::OutOfBounds { at: pos as usize, want: 4 })
    } else {
        let wc = (be_u32_at(s, pos) as int) % 0x10000;
        if 8 * wc > ws {
            Err(PsfError::WindowOverflow { at: pos as usize })
        } else if 4 + 8 * wc + stride > s.len() - pos {
            Err(PsfError::OutOfBounds { at: (pos + 4) as usize, want: (8 * wc + stride) as usize })
        } else if wc > need {
            Err(PsfError::InconsistentSampleCount)
        } else {
            match spec_windows(s, pos + 4 + 8 * wc + stride, need - wc, ws, stride) {
                Err(e) => Err(e),
                Ok(rest) => Ok(seq![(pos + 4, wc)] + rest),
            }
        }
    }
}

/// Every collected window lies inside the buffer, respects its slab capacity,
/// and has a non-negative sample count.
pub open spec fn wins_ok(s: Seq<u8>, wins: Seq<(int, int)>, ws: int, stride: int) -> bool {
    forall|i: int|
        0 <= i < wins.len() ==> {
            &&& 0 <= (#[trigger] wins[i]).0
            &&& 0 <= wins[i].1
            &&& 8 * wins[i].1 <= ws
            &&& wins[i].0 + 8 * wins[i].1 + stride <= s.len()
        }
}

/// The total sample count of the collected windows.
pub open spec fn wins_total(wins: Seq<(int, int)>) -> int
    decreases wins.len(),
{
    if wins.len() == 0 {
        0
    } else {
        wins.first().1 + wins_total(wins.drop_first())
    }
}

/// A successful window scan yields in-bounds windows whose sample counts add
/// up to exactly the requested total.
pub proof fn lemma_windows_ok(s: Seq<u8>, pos: int, need: int, ws: int, stride: int, wins: Seq<(int, int)>)
    requires
        0 <= pos,
        0 <= need,
        spec_windows(s, pos, need, ws, stride) == Ok::<Seq<(int, int)>, PsfError>(wins),
    ensures
        wins_ok(s, wins, ws, stride),
        wins_total(wins) == need,
    decreases s.len() - pos,
{
    if stride < 0 {
    } else if need <= 0 {
        assert(wins =~= Seq::<(int, int)>::empty());
    } else if pos + 4 > s.len() {
    } else {
        let wc = (be_u32_at(s, pos) as int) % 0x10000;
        if 8 * wc <= ws && 4 + 8 * wc + stride <= s.len() - pos && wc <= need {
            match spec_windows(s, pos + 4 + 8 * wc + stride, need - wc, ws, stride) {
                Ok(rest) => {
                    lemma_windows_ok(s, pos + 4 + 8 * wc + stride, need - wc, ws, stride, rest);
                    assert(wins == seq![(pos + 4, wc)] + rest);
                    assert(wins.first() == (pos + 4, wc));
                    assert(wins.drop_first() =~= rest);
                },
                Err(_) => {},
            }
        }
    }
}

/// Scans the value section's windows: collects each window's sweep-byte
/// offset and sample count, stopping once `sweep_points` samples are
/// accounted for.
#[verifier::loop_isolation(false)]
#[verifier::rlimit(100)]
pub fn scan_windows(
    data: &[u8],
    wstart: usize,
    sweep_points: u64,
    window_size: u32,
    num_traces: u32,
) -> (r: Result<Vec<(usize, u32)>, PsfError>)
    requires
        wstart <= data@.len(),
    ensures
        match r {
            Ok(w) => spec_windows(
                data@,
                wstart as int,
                sweep_points as int,
                window_size as int,
                num_traces as int * window_size as int,
            ) == Ok::<Seq<(int, int)>, PsfError>(wins_view(w@)),
            Err(e) => spec_windows(
                data@,
                wstart as int,
                sweep_points as int,
                window_size as int,
                num_traces as int * window_size as int,
            ) == Err::<Seq<(int, int)>, PsfError>(e),
        },
{
    let ghost stride_g: int = num_traces as int * window_size as int;
    proof {
        assert((num_traces as u64) * (window_size as u64) <= 0xfffffffe00000001u64)
            by (nonlinear_arith)
            requires
                num_traces as u64 <= 0xffffffffu64,
                window_size as u64 <= 0xffffffffu64,
        ;
    }
    let stride: u64 = (num_traces as u64) * (window_size as u64);
    let dlen = data.len();
    let mut wins: Vec<(usize, u32)> = Vec::new();
    let mut p = wstart;
    let mut rem: u64 = sweep_points;
    proof {
        assert(stride_g == stride as int);
        assert(wins_view(wins@) =~= Seq::<(int, int)>::empty());
        if let Ok(rest) = spec_windows(data@, p as int, rem as int, window_size as int, stride_g) {
            assert(Seq::<(int, int)>::empty() + rest =~= rest);
        }
    }
    while rem > 0
        invariant
            p <= dlen,
            match spec_windows(data@, p as int, rem as int, window_size as int, stride_g) {
                Ok(rest) => spec_windows(
                    data@,
                    wstart as int,
                    sweep_points as int,
                    window_size as int,
                    stride_g,
                ) == Ok::<Seq<(int, int)>, PsfError>(wins_view(wins@) + rest),
                Err(e) => spec_windows(
                    data@,
                    wstart as int,
                    sweep_points as int,
                    window_size as int,
                    stride_g,
                ) == Err::<Seq<(int, int)>, PsfError>(e),
            },
        decreases dlen - p,
    {
        if dlen - p < 4 {
            return Err(PsfError::OutOfBounds { at: p, want: 4 });
        }
        let bi = crate::reader::word_at(data, p);
        let wc = bi % 0x10000;
        if 8 * wc > window_size {
            return Err(PsfError::WindowOverflow { at: p });
        }
        let wbytes: u64 = 8u64 * (wc as u64) + stride;
        if 4 + wbytes > (dlen - p) as u64 {
            return Err(PsfError::OutOfBounds { at: p + 4, want: wbytes as usize });
        }
        if (wc as u64) > rem {
            return Err(PsfError::InconsistentSampleCount);
        }
        let ghost pre = wins@;
        let ghost p_old = p as int;
        let ghost rem_old = rem as int;
        wins.push((p + 4, wc));
        p = p + ((4 + wbytes) as usize);
        rem = rem - (wc as u64);
        proof {
            assert(wins_view(wins@) =~= wins_view(pre) + seq![(p_old + 4, wc as int)]);
            if let Ok(rest2) = spec_windows(
                data@,
                p as int,
                rem as int,
                window_size as int,
                stride_g,
            ) {
                assert(wins_view(pre) + (seq![(p_old + 4, wc as int)] + rest2) =~= (wins_view(pre)
                    + seq![(p_old + 4, wc as int)]) + rest2);
            }
        }
    }
    proof {
        assert(wins_view(wins@) + Seq::<(int, int)>::empty() =~= wins_view(wins@));
    }
    Ok(wins)
}

/// The sweep variable's samples: each window contributes its `wc` doubles,
/// read from the window's first sweep byte onward.
pub open spec fn spec_sweep_samples(s: Seq<u8>, wins: Seq<(int, int)>) -> Seq<u64>
    decreases wins.len(),
{
    if wins.len() == 0 {
        Seq::empty()
    } else {
        Seq::new(wins.first().1 as nat, |j: int| be_u64_at(s, wins.first().0 + 8 * j))
            + spec_sweep_samples(s, wins.drop_first())
    }
}

/// Leaf `k`'s real samples: each window stores them right-aligned in the
/// `k`-th slab, which places them at `8 * wc` sweep bytes plus `k + 1` slabs
/// from the window's sweep base minus the occupied `8 * wc` bytes — that is,
/// at `base + (k + 1) * ws` exactly.
pub open spec fn spec_real_samples(s: Seq<u8>, wins: Seq<(int, int)>, ws: int, k: int) -> Seq<u64>
    decreases wins.len(),
{
    if wins.len() == 0 {
        Seq::empty()
    } else {
        Seq::new(
            wins.first().1 as nat,
            |j: int| be_u64_at(s, wins.first().0 + (k + 1) * ws + 8 * j),
        ) + spec_real_samples(s, wins.drop_first(), ws, k)
    }
}

/// Leaf `k`'s complex samples: like the real case, but each sample is a
/// (real, imaginary) pair of doubles, so the occupied area is `16 * wc` bytes
/// and may run past the window's own slabs; a pair that would run past the
/// buffer is out of bounds.
pub open spec fn spec_complex_samples(s: Seq<u8>, wins: Seq<(int, int)>, ws: int, k: int) -> Result<
    Seq<(u64, u64)>,
    PsfError,
>
    decreases wins.len(),
{
    if wins.len() == 0 {
        Ok(Seq::empty())
    } else {
        let st = wins.first().0 + (k + 1) * ws;
        let wc = wins.first().1;
        if st < 0 || st + 16 * wc > s.len() {
            Err(PsfError::OutOfBounds { at: st as usize, want: (16 * wc) as usize })
        } else {
            match spec_complex_samples(s, wins.drop_first(), ws, k) {
                Err(e) => Err(e),
                Ok(rest) => Ok(
                    Seq::new(
                        wc as nat,
                        |j: int| (be_u64_at(s, st + 16 * j), be_u64_at(s, st + 16 * j + 8)),
                    ) + rest,
                ),
            }
        }
    }
}

/// Collects the sweep variable's samples from the scanned windows.
#[verifier::loop_isolation(false)]
#[verifier::rlimit(100)]
pub fn collect_sweep(data: &[u8], wins: &Vec<(usize, u32)>, window_size: u32, num_traces: u32) -> (r:
    Vec<u64>)
    requires
        wins_ok(data@, wins_view(wins@), window_size as int, num_traces as int * window_size as int),
    ensures
        r@ == spec_sweep_samples(data@, wins_view(wins@)),
{
    proof {
        vstd::slice::axiom_spec_len::<u8>(data);
    }
    let ghost full = wins_view(wins@);
    let n = wins.len();
    let mut out: Vec<u64> = Vec::new();
    let mut i: usize = 0;
    proof {
        vstd::arithmetic::mul::lemma_mul_nonnegative(num_traces as int, window_size as int);
        assert(full.skip(0) =~= full);
        assert(Seq::<u64>::empty() + spec_sweep_samples(data@, full) =~= spec_sweep_samples(
            data@,
            full,
        ));
    }
    while i < n
        invariant
            i <= n,
            n == wins@.len(),
            num_traces as int * window_size as int >= 0,
            out@ + spec_sweep_samples(data@, full.skip(i as int)) == spec_sweep_samples(
                data@,
                full,
            ),
        decreases n - i,
    {
        proof {
            assert(full.skip(i as int).first() == full[i as int]);
            assert(full.skip(i as int).drop_first() =~= full.skip(i + 1));
        }
        let (dpos, wc) = wins[i];
        let ghost pre = out@;
        let ghost wpart = Seq::new(wc as nat, |j: int| be_u64_at(data@, dpos + 8 * j));
        let mut j: u32 = 0;
        while j < wc
            invariant
                j <= wc,
                dpos + 8 * wc <= data@.len(),
                out@ == pre + wpart.take(j as int),
                wpart == Seq::new(wc as nat, |jj: int| be_u64_at(data@, dpos + 8 * jj)),
            decreases wc - j,
        {
            let v = crate::reader::dword_at(data, dpos + 8 * (j as usize));
            out.push(v);
            proof {
                assert(wpart.take(j + 1) =~= wpart.take(j as int).push(wpart[j as int]));
                assert(out@ =~= pre + wpart.take(j + 1));
            }
            j = j + 1;
        }
        proof {
            assert(wpart.take(wc as int) =~= wpart);
            assert((pre + wpart) + spec_sweep_samples(data@, full.skip(i + 1)) =~= pre + (wpart
                + spec_sweep_samples(data@, full.skip(i + 1))));
        }
        i = i + 1;
    }
    proof {
        assert(full.skip(n as int) =~= Seq::<(int, int)>::empty());
        assert(out@ + Seq::<u64>::empty() =~= out@);
    }
    out
}

/// Collects leaf `k`'s real samples from the scanned windows.
#[verifier::loop_isolation(false)]
#[verifier::rlimit(100)]
pub fn collect_real(
    data: &[u8],
    wins: &Vec<(usize, u32)>,
    window_size: u32,
    num_traces: u32,
    k: usize,
) -> (r: Vec<u64>)
    requires
        wins_ok(data@, wins_view(wins@), window_size as int, num_traces as int * window_size as int),
        (k as int) < num_traces as int,
    ensures
        r@ == spec_real_samples(data@, wins_view(wins@), window_size as int, k as int),
{
    proof {
        vstd::slice::axiom_spec_len::<u8>(data);
    }
    let ghost full = wins_view(wins@);
    let ghost ws_g: int = window_size as int;
    let n = wins.len();
    let mut out: Vec<u64> = Vec::new();
    let mut i: usize = 0;
    proof {
        assert(full.skip(0) =~= full);
        assert(Seq::<u64>::empty() + spec_real_samples(data@, full, ws_g, k as int)
            =~= spec_real_samples(data@, full, ws_g, k as int));
    }
    while i < n
        invariant
            i <= n,
            n == wins@.len(),
            out@ + spec_real_samples(data@, full.skip(i as int), ws_g, k as int)
                == spec_real_samples(data@, full, ws_g, k as int),
        decreases n - i,
    {
        proof {
            assert(full.skip(i as int).first() == full[i as int]);
            assert(full.skip(i as int).drop_first() =~= full.skip(i + 1));
            vstd::arithmetic::mul::lemma_mul_inequality(
                k as int + 1,
                num_traces as int,
                window_size as int,
            );
            vstd::arithmetic::mul::lemma_mul_nonnegative(k as int + 1, window_size as int);
        }
        let (dpos, wc) = wins[i];
        let st = dpos + (k + 1) * (window_size as usize);
        proof {
            assert(st == dpos + (k as int + 1) * ws_g);
            assert(st + 8 * wc <= data@.len());
        }
        let ghost pre = out@;
        let ghost wpart = Seq::new(wc as nat, |j: int| be_u64_at(data@, st + 8 * j));
        let mut j: u32 = 0;
        while j < wc
            invariant
                j <= wc,
                st + 8 * wc <= data@.len(),
                out@ == pre + wpart.take(j as int),
                wpart == Seq::new(wc as nat, |jj: int| be_u64_at(data@, st + 8 * jj)),
            decreases wc - j,
        {
            let v = crate::reader::dword_at(data, st + 8 * (j as usize));
            out.push(v);
            proof {
                assert(wpart.take(j + 1) =~= wpart.take(j as int).push(wpart[j as int]));
                assert(out@ =~= pre + wpart.take(j + 1));
            }
            j = j + 1;
        }
        proof {
            assert(wpart.take(wc as int) =~= wpart);
            assert((pre + wpart) + spec_real_samples(data@, full.skip(i + 1), ws_g, k as int) =~= pre
                + (wpart + spec_real_samples(data@, full.skip(i + 1), ws_g, k as int)));
        }
        i = i + 1;
    }
    proof {
        assert(full.skip(n as int) =~= Seq::<(int, int)>::empty());
        assert(out@ + Seq::<u64>::empty() =~= out@);
    }
    out
}

/// Collects leaf `k`'s complex samples from the scanned windows, checking
/// each window's pair area against the end of the buffer.
#[verifier::loop_isolation(false)]
#[verifier::rlimit(100)]
pub fn collect_complex(
    data: &[u8],
    wins: &Vec<(usize, u32)>,
    window_size: u32,
    num_traces: u32,
    k: usize,
) -> (r: Result<Vec<(u64, u64)>, PsfError>)
    requires
        wins_ok(data@, wins_view(wins@), window_size as int, num_traces as int * window_size as int),
        (k as int) < num_traces as int,
    ensures
        match r {
            Ok(v) => spec_complex_samples(data@, wins_view(wins@), window_size as int, k as int)
                == Ok::<Seq<(u64, u64)>, PsfError>(v@),
            Err(e) => spec_complex_samples(data@, wins_view(wins@), window_size as int, k as int)
                == Err::<Seq<(u64, u64)>, PsfError>(e),
        },
{
    proof {
        vstd::slice::axiom_spec_len::<u8>(data);
    }
    let ghost full = wins_view(wins@);
    let ghost ws_g: int = window_size as int;
    let dlen = data.len();
    let n = wins.len();
    let mut out: Vec<(u64, u64)> = Vec::new();
    let mut i: usize = 0;
    proof {
        assert(full.skip(0) =~= full);
        if let Ok(rest) = spec_complex_samples(data@, full, ws_g, k as int) {
            assert(Seq::<(u64, u64)>::empty() + rest =~= rest);
        }
    }
    while i < n
        invariant
            i <= n,
            n == wins@.len(),
            dlen == data@.len(),
            match spec_complex_samples(data@, full.skip(i as int), ws_g, k as int) {
                Ok(rest) => spec_complex_samples(data@, full, ws_g, k as int) == Ok::<
                    Seq<(u64, u64)>,
                    PsfError,
                >(out@ + rest),
                Err(e) => spec_complex_samples(data@, full, ws_g, k as int) == Err::<
                    Seq<(u64, u64)>,
                    PsfError,
                >(e),
            },
        decreases n - i,
    {
        proof {
            assert(full.skip(i as int).first() == full[i as int]);
            assert(full.skip(i as int).drop_first() =~= full.skip(i + 1));
            vstd::arithmetic::mul::lemma_mul_inequality(
                k as int + 1,
                num_traces as int,
                window_size as int,
            );
            vstd::arithmetic::mul::lemma_mul_nonnegative(k as int + 1, window_size as int);
        }
        let (dpos, wc) = wins[i];
        let st = dpos + (k + 1) * (window_size as usize);
        proof {
            assert(st == dpos + (k as int + 1) * ws_g);
        }
        if (16u64 * (wc as u64)) > (dlen - st) as u64 {
            return Err(PsfError::OutOfBounds { at: st, want: (16u64 * (wc as u64)) as usize });
        }
        let ghost pre = out@;
        let ghost wpart = Seq::new(
            wc as nat,
            |j: int| (be_u64_at(data@, st + 16 * j), be_u64_at(data@, st + 16 * j + 8)),
        );
        let mut j: u32 = 0;
        while j < wc
            invariant
                j <= wc,
                st + 16 * wc <= data@.len(),
                out@ == pre + wpart.take(j as int),
                wpart == Seq::new(
                    wc as nat,
                    |jj: int| (be_u64_at(data@, st + 16 * jj), be_u64_at(data@, st + 16 * jj + 8)),
                ),
            decreases wc - j,
        {
            let re = crate::reader::dword_at(data, st + 16 * (j as usize));
            let im = crate::reader::dword_at(data, st + 16 * (j as usize) + 8);
            out.push((re, im));
            proof {
                assert(wpart.take(j + 1) =~= wpart.take(j as int).push(wpart[j as int]));
                assert(out@ =~= pre + wpart.take(j + 1));
            }
            j = j + 1;
        }
        proof {
            assert(wpart.take(wc as int) =~= wpart);
            if let Ok(rest2) = spec_complex_samples(data@, full.skip(i + 1), ws_g, k as int) {
                assert((pre + wpart) + rest2 =~= pre + (wpart + rest2));
            }
        }
        i = i + 1;
    }
    proof {
        assert(full.skip(n as int) =~= Seq::<(int, int)>::empty());
        assert(out@ + Seq::<(u64, u64)>::empty() =~= out@);
    }
    Ok(out)
}


/// The trace identifiers of the flattened leaves, in order.
pub open spec fn flat_ids(f: Seq<FlatSignal>) -> Seq<TraceId> {
    Seq::new(f.len(), |i: int| f[i].id)
}

/// The identifiers of the model's leaves, in order.
pub open spec fn sig_ids(l: Seq<SpecSignalRef>) -> Seq<TraceId> {
    Seq::new(l.len(), |i: int| l[i].id)
}

/// The type identifiers of the model's leaves, in order.
pub open spec fn sig_tids(l: Seq<SpecSignalRef>) -> Seq<TypeId> {
    Seq::new(l.len(), |i: int| l[i].type_id)
}

/// The identifier of the first leaf whose identifier recurs later in the
/// list, if any.
pub open spec fn spec_first_dup(ids: Seq<TraceId>) -> Option<TraceId>
    decreases ids.len(),
{
    if ids.len() == 0 {
        None
    } else if exists|j: int| 1 <= j < ids.len() && #[trigger] ids[j] == ids[0] {
        Some(ids[0])
    } else {
        spec_first_dup(ids.drop_first())
    }
}

/// Finds the first leaf whose trace identifier recurs later in the flattened
/// list.
#[verifier::loop_isolation(false)]
pub fn find_dup(flat: &Vec<FlatSignal>) -> (r: Option<TraceId>)
    ensures
        r == spec_first_dup(flat_ids(flat@)),
{
    let ghost ids = flat_ids(flat@);
    let n = flat.len();
    let mut i: usize = 0;
    proof {
        assert(ids.skip(0) =~= ids);
    }
    while i < n
        invariant
            i <= n,
            n == flat@.len(),
            spec_first_dup(ids) == spec_first_dup(ids.skip(i as int)),
        decreases n - i,
    {
        proof {
            assert(ids.skip(i as int).drop_first() =~= ids.skip(i + 1));
        }
        let mut j: usize = i + 1;
        while j < n
            invariant
                i < j <= n,
                n == flat@.len(),
                forall|jj: int| i < jj < j ==> ids[jj] != ids[i as int],
            decreases n - j,
        {
            if flat[j].id.0 == flat[i].id.0 {
                proof {
                    assert(ids.skip(i as int)[j - i] == ids[j as int]);
                    assert(ids[j as int] == ids[i as int]);
                }
                return Some(flat[i].id);
            }
            j = j + 1;
        }
        proof {
            assert forall|jj: int|
                1 <= jj < ids.skip(i as int).len() implies #[trigger] ids.skip(i as int)[jj]
                != ids.skip(i as int)[0] by {
                assert(ids.skip(i as int)[jj] == ids[i + jj]);
            }
        }
        i = i + 1;
    }
    proof {
        assert(ids.skip(n as int) =~= Seq::<TraceId>::empty());
    }
    None
}

/// Whether some flattened leaf carries the given name.
#[verifier::loop_isolation(false)]
pub fn find_name(flat: &Vec<FlatSignal>, name: &[u8]) -> (r: bool)
    ensures
        r <==> exists|i: int| 0 <= i < flat@.len() && (#[trigger] flat@[i]).name@ == name@,
{
    let n = flat.len();
    let mut i: usize = 0;
    while i < n
        invariant
            i <= n,
            n == flat@.len(),
            forall|ii: int| 0 <= ii < i ==> (#[trigger] flat@[ii]).name@ != name@,
        decreases n - i,
    {
        if crate::ast::bytes_eq(flat[i].name.as_slice(), name) {
            return true;
        }
        i = i + 1;
    }
    false
}

/// The sample kind of each leaf, resolved through the type table: the type
/// identifier must resolve, and the resolved data type must be `Real` or
/// `Complex`, or decoding fails.
pub open spec fn spec_resolve(types: Seq<SpecTypeDef>, tids: Seq<TypeId>) -> Result<
    Seq<DataType>,
    PsfError,
>
    decreases tids.len(),
{
    if tids.len() == 0 {
        Ok(Seq::empty())
    } else {
        match crate::ast::spec_types_lookup(types, tids.first()) {
            None => Err(PsfError::UnresolvedType { type_id: tids.first().0 }),
            Some(t) => if t.data_type == DataType::Real || t.data_type == DataType::Complex {
                match spec_resolve(types, tids.drop_first()) {
                    Err(e) => Err(e),
                    Ok(rest) => Ok(seq![t.data_type] + rest),
                }
            } else {
                Err(
                    PsfError::UnsupportedDataType { got: crate::ast::data_type_code(t.data_type) },
                )
            },
        }
    }
}

/// Resolves every leaf's sample kind through the type table.
#[verifier::loop_isolation(false)]
#[verifier::rlimit(60)]
pub fn resolve_types(types: &Types, flat: &Vec<FlatSignal>) -> (r: Result<Vec<DataType>, PsfError>)
    ensures
        match r {
            Ok(d) => spec_resolve(types@, flat_tids(flat@)) == Ok::<Seq<DataType>, PsfError>(d@)
                && d@.len() == flat@.len(),
            Err(e) => spec_resolve(types@, flat_tids(flat@)) == Err::<Seq<DataType>, PsfError>(e),
        },
{
    let ghost tids = flat_tids(flat@);
    let n = flat.len();
    let mut out: Vec<DataType> = Vec::new();
    let mut i: usize = 0;
    proof {
        assert(tids.skip(0) =~= tids);
        if let Ok(rest) = spec_resolve(types@, tids) {
            assert(Seq::<DataType>::empty() + rest =~= rest);
        }
    }
    while i < n
        invariant
            i <= n,
            n == flat@.len(),
            out@.len() == i,
            match spec_resolve(types@, tids.skip(i as int)) {
                Ok(rest) => spec_resolve(types@, tids) == Ok::<Seq<DataType>, PsfError>(
                    out@ + rest,
                ),
                Err(e) => spec_resolve(types@, tids) == Err::<Seq<DataType>, PsfError>(e),
            },
        decreases n - i,
    {
        proof {
            assert(tids.skip(i as int).first() == tids[i as int]);
            assert(tids.skip(i as int).drop_first() =~= tids.skip(i + 1));
        }
        let t = match types.get(flat[i].type_id) {
            Some(t) => t,
            None => {
                return Err(PsfError::UnresolvedType { type_id: flat[i].type_id.0 });
            },
        };
        let dt = t.data_type;
        if !(dt == DataType::Real || dt == DataType::Complex) {
            return Err(PsfError::UnsupportedDataType { got: dt.code() });
        }
        let ghost pre = out@;
        out.push(dt);
        proof {
            assert(out@ =~= pre + seq![dt]);
            if let Ok(rest2) = spec_resolve(types@, tids.skip(i + 1)) {
                assert(pre + (seq![dt] + rest2) =~= (pre + seq![dt]) + rest2);
            }
        }
        i = i + 1;
    }
    proof {
        assert(tids.skip(n as int) =~= Seq::<TypeId>::empty());
        assert(out@ + Seq::<DataType>::empty() =~= out@);
    }
    Ok(out)
}

/// The type identifiers of the flattened leaves, in order.
pub open spec fn flat_tids(f: Seq<FlatSignal>) -> Seq<TypeId> {
    Seq::new(f.len(), |i: int| f[i].type_id)
}

/// The decoded sample table entries for the leaves from index `k` on: each
/// leaf yields its identifier paired with a vector of the kind its resolved
/// data type selects.
pub open spec fn spec_samples_from(
    s: Seq<u8>,
    wins: Seq<(int, int)>,
    ws: int,
    ids: Seq<TraceId>,
    dts: Seq<DataType>,
    k: int,
) -> Result<Seq<(TraceId, SpecValues)>, PsfError>
    decreases ids.len() - k,
{
    if k < 0 || k >= ids.len() {
        Ok(Seq::empty())
    } else {
        let entry: Result<(TraceId, SpecValues), PsfError> = if dts[k] == DataType::Real {
            Ok((ids[k], SpecValues::Real(spec_real_samples(s, wins, ws, k))))
        } else {
            match spec_complex_samples(s, wins, ws, k) {
                Err(e) => Err(e),
                Ok(v) => Ok((ids[k], SpecValues::Complex(v))),
            }
        };
        match entry {
            Err(e) => Err(e),
            Ok(en) => match spec_samples_from(s, wins, ws, ids, dts, k + 1) {
                Err(e) => Err(e),
                Ok(rest) => Ok(seq![en] + rest),
            },
        }
    }
}


/// Whether some flattened leaf carries the given trace identifier.
#[verifier::loop_isolation(false)]
pub fn find_id(flat: &Vec<FlatSignal>, id: TraceId) -> (r: bool)
    ensures
        r <==> exists|i: int| 0 <= i < flat@.len() && (#[trigger] flat@[i]).id == id,
{
    let n = flat.len();
    let mut i: usize = 0;
    while i < n
        invariant
            i <= n,
            n == flat@.len(),
            forall|ii: int| 0 <= ii < i ==> (#[trigger] flat@[ii]).id != id,
        decreases n - i,
    {
        if flat[i].id.0 == id.0 {
            return true;
        }
        i = i + 1;
    }
    false
}

/// The model of [`parse_values`], the windowed value decoder: after the value
/// section's prolog — an ignored end-offset word, the block tag 20, and a
/// length-prefixed filler block — the windows are scanned until they account
/// for exactly `sp` sweep samples, and every leaf signal's samples are
/// gathered from its slab of each window. The leaf count must equal the
/// header's trace count, the sweep variable's name must not collide with any
/// leaf's name, every trace identifier (the sweep's included) must be unique,
/// and every leaf's type must resolve to `Real` or `Complex`. The result
/// holds the sweep variable's vector first, then one vector per leaf in
/// flattened order.
pub open spec fn spec_decode_values(
    s: Seq<u8>,
    start: int,
    ws: int,
    nt: int,
    sp: int,
    sweep: SpecSignalRef,
    traces: Seq<SpecTrace>,
    types: Seq<SpecTypeDef>,
) -> Result<Seq<(TraceId, SpecValues)>, PsfError> {
    let fl = spec_flatten(traces);
    if start + 16 > s.len() {
        Err(PsfError::OutOfBounds { at: start as usize, want: 16 })
    } else {
        let tag = be_u32_at(s, start + 8);
        if tag != TAG_VALUE_BLOCK {
            Err(
                PsfError::UnexpectedTag {
                    expected: TAG_VALUE_BLOCK,
                    got: tag,
                    at: (start + 8) as usize,
                },
            )
        } else {
            let l = be_u32_at(s, start + 12) as int;
            let wstart = start + 20 + l;
            if wstart > s.len() {
                Err(PsfError::OutOfBounds { at: (start + 16) as usize, want: (4 + l) as usize })
            } else if fl.len() != nt {
                Err(PsfError::UnsupportedLayout)
            } else if exists|i: int| 0 <= i < fl.len() && (#[trigger] fl[i]).name == sweep.name {
                Err(PsfError::SweepSignalNameCollision)
            } else if exists|i: int| 0 <= i < fl.len() && (#[trigger] fl[i]).id == sweep.id {
                Err(PsfError::DuplicateTraceId { id: sweep.id.0 })
            } else {
                match spec_first_dup(sig_ids(fl)) {
                    Some(id) => Err(PsfError::DuplicateTraceId { id: id.0 }),
                    None => match spec_resolve(types, sig_tids(fl)) {
                        Err(e) => Err(e),
                        Ok(dts) => match spec_windows(s, wstart, sp, ws, nt * ws) {
                            Err(e) => Err(e),
                            Ok(wins) => match spec_samples_from(s, wins, ws, sig_ids(fl), dts, 0) {
                                Err(e) => Err(e),
                                Ok(entries) => Ok(
                                    seq![
                                        (sweep.id, SpecValues::Real(spec_sweep_samples(s, wins))),
                                    ] + entries,
                                ),
                            },
                        },
                    },
                }
            }
        }
    }
}

/// Decodes the value section into the sample table: the sweep variable's
/// vector first, then one vector per leaf signal in flattened trace order,
/// every vector holding exactly the `sweep_points` samples its windows
/// declared.
#[verifier::loop_isolation(false)]
#[verifier::rlimit(100)]
pub fn parse_values(
    data: &[u8],
    entry: &TocEntry,
    window_size: u32,
    num_traces: u32,
    sweep_points: u64,
    sweep: &SignalRef,
    traces: &Vec<Trace>,
    types: &Types,
) -> (r: Result<SignalValues, PsfError>)
    ensures
        match r {
            Ok(sv) => spec_decode_values(
                data@,
                entry.start as int,
                window_size as int,
                num_traces as int,
                sweep_points as int,
                sweep@,
                traces_view(traces@),
                types@,
            ) == Ok::<Seq<(TraceId, SpecValues)>, PsfError>(sv@),
            Err(e) => spec_decode_values(
                data@,
                entry.start as int,
                window_size as int,
                num_traces as int,
                sweep_points as int,
                sweep@,
                traces_view(traces@),
                types@,
            ) == Err::<Seq<(TraceId, SpecValues)>, PsfError>(e),
        },
{
    let ghost fl = spec_flatten(traces_view(traces@));
    let dlen = data.len();
    if entry.start > dlen || dlen - entry.start < 16 {
        return Err(PsfError::OutOfBounds { at: entry.start, want: 16 });
    }
    let tag = crate::reader::word_at(data, entry.start + 8);
    if tag != TAG_VALUE_BLOCK {
        return Err(
            PsfError::UnexpectedTag { expected: TAG_VALUE_BLOCK, got: tag, at: entry.start + 8 },
        );
    }
    let filler32 = crate::reader::word_at(data, entry.start + 12);
    let filler = filler32 as usize;
    if filler > dlen - (entry.start + 16) || 4 > dlen - (entry.start + 16) - filler {
        let want64: u64 = 4 + (filler32 as u64);
        return Err(PsfError::OutOfBounds { at: entry.start + 16, want: want64 as usize });
    }
    let wstart = entry.start + 20 + filler;
    let flat = flatten_traces(traces);
    if flat.len() != num_traces as usize {
        return Err(PsfError::UnsupportedLayout);
    }
    proof {
        assert(flat_ids(flat@) =~= sig_ids(fl));
        assert(flat_tids(flat@) =~= sig_tids(fl));
    }
    if find_name(&flat, sweep.name.as_slice()) {
        proof {
            let i = choose|i: int| 0 <= i < flat@.len() && (#[trigger] flat@[i]).name@
                == sweep.name@;
            assert(fl[i].name == sweep@.name);
        }
        return Err(PsfError::SweepSignalNameCollision);
    }
    proof {
        assert forall|i: int| 0 <= i < fl.len() implies (#[trigger] fl[i]).name != sweep@.name by {
            assert(flat@[i].name@ == fl[i].name);
        }
    }
    if find_id(&flat, sweep.id) {
        proof {
            let i = choose|i: int| 0 <= i < flat@.len() && (#[trigger] flat@[i]).id == sweep.id;
            assert(fl[i].id == sweep@.id);
        }
        return Err(PsfError::DuplicateTraceId { id: sweep.id.0 });
    }
    proof {
        assert forall|i: int| 0 <= i < fl.len() implies (#[trigger] fl[i]).id != sweep@.id by {
            assert(flat@[i].id == fl[i].id);
        }
    }
    match find_dup(&flat) {
        Some(id) => {
            return Err(PsfError::DuplicateTraceId { id: id.0 });
        },
        None => {},
    }
    let dts = match resolve_types(types, &flat) {
        Ok(d) => d,
        Err(e) => {
            return Err(e);
        },
    };
    let wins = match scan_windows(data, wstart, sweep_points, window_size, num_traces) {
        Ok(w) => w,
        Err(e) => {
            return Err(e);
        },
    };
    proof {
        lemma_windows_ok(
            data@,
            wstart as int,
            sweep_points as int,
            window_size as int,
            num_traces as int * window_size as int,
            wins_view(wins@),
        );
    }
    let sweep_vec = collect_sweep(data, &wins, window_size, num_traces);
    let ghost idsv = sig_ids(fl);
    let ghost dtsv = dts@;
    let ghost winsv = wins_view(wins@);
    let ghost ws_g: int = window_size as int;
    let n = flat.len();
    let mut out: Vec<(TraceId, Values)> = Vec::new();
    out.push((sweep.id, Values::Real(sweep_vec)));
    let ghost sweep_entry = (sweep@.id, SpecValues::Real(spec_sweep_samples(data@, winsv)));
    proof {
        assert(crate::ast::vals_view(out@) =~= seq![sweep_entry]);
        assert(crate::ast::vals_view(out@).skip(1) =~= Seq::<(TraceId, SpecValues)>::empty());
        if let Ok(rest) = spec_samples_from(data@, winsv, ws_g, idsv, dtsv, 0) {
            assert(Seq::<(TraceId, SpecValues)>::empty() + rest =~= rest);
        }
    }
    let mut k: usize = 0;
    while k < n
        invariant
            k <= n,
            n == flat@.len(),
            out@.len() == 1 + k,
            crate::ast::vals_view(out@)[0] == sweep_entry,
            match spec_samples_from(data@, winsv, ws_g, idsv, dtsv, k as int) {
                Ok(rest) => spec_samples_from(data@, winsv, ws_g, idsv, dtsv, 0) == Ok::<
                    Seq<(TraceId, SpecValues)>,
                    PsfError,
                >(crate::ast::vals_view(out@).skip(1) + rest),
                Err(e) => spec_samples_from(data@, winsv, ws_g, idsv, dtsv, 0) == Err::<
                    Seq<(TraceId, SpecValues)>,
                    PsfError,
                >(e),
            },
        decreases n - k,
    {
        let ghost pre = out@;
        let d = dts[k];
        if d == DataType::Real {
            let v = collect_real(data, &wins, window_size, num_traces, k);
            out.push((flat[k].id, Values::Real(v)));
        } else {
            let v = match collect_complex(data, &wins, window_size, num_traces, k) {
                Ok(v) => v,
                Err(e) => {
                    return Err(e);
                },
            };
            out.push((flat[k].id, Values::Complex(v)));
        }
        proof {
            let en = crate::ast::vals_view(out@)[1 + k];
            assert(crate::ast::vals_view(out@) =~= crate::ast::vals_view(pre).push(en));
            assert(crate::ast::vals_view(out@).skip(1) =~= crate::ast::vals_view(pre).skip(
                1,
            ).push(en));
            if let Ok(rest2) = spec_samples_from(data@, winsv, ws_g, idsv, dtsv, k + 1) {
                assert(crate::ast::vals_view(pre).skip(1) + (seq![en] + rest2)
                    =~= (crate::ast::vals_view(pre).skip(1) + seq![en]) + rest2);
                assert(crate::ast::vals_view(pre).skip(1).push(en) =~= crate::ast::vals_view(
                    pre,
                ).skip(1) + seq![en]);
            }
        }
        k = k + 1;
    }
    proof {
        assert(crate::ast::vals_view(out@).skip(1) + Seq::<(TraceId, SpecValues)>::empty()
            =~= crate::ast::vals_view(out@).skip(1));
        assert(seq![sweep_entry] + crate::ast::vals_view(out@).skip(1) =~= crate::ast::vals_view(
            out@,
        ));
    }
    Ok(SignalValues { values: out })
}


/// How many samples a decoded vector holds: entries for a real vector, pairs
/// for a complex one.
pub open spec fn sample_len(v: SpecValues) -> int {
    match v {
        SpecValues::Real(r) => r.len() as int,
        SpecValues::Complex(c) => c.len() as int,
    }
}

/// The sweep vector holds one sample per window count.
pub proof fn lemma_sweep_len(s: Seq<u8>, wins: Seq<(int, int)>)
    requires
        forall|i: int| 0 <= i < wins.len() ==> (#[trigger] wins[i]).1 >= 0,
    ensures
        spec_sweep_samples(s, wins).len() == wins_total(wins),
    decreases wins.len(),
{
    if wins.len() > 0 {
        assert(wins.drop_first() =~= wins.skip(1));
        assert(forall|i: int|
            0 <= i < wins.drop_first().len() ==> (#[trigger] wins.drop_first()[i]).1 >= 0);
        lemma_sweep_len(s, wins.drop_first());
    }
}

/// A leaf's real vector holds one sample per window count.
pub proof fn lemma_real_len(s: Seq<u8>, wins: Seq<(int, int)>, ws: int, k: int)
    requires
        forall|i: int| 0 <= i < wins.len() ==> (#[trigger] wins[i]).1 >= 0,
    ensures
        spec_real_samples(s, wins, ws, k).len() == wins_total(wins),
    decreases wins.len(),
{
    if wins.len() > 0 {
        assert(wins.drop_first() =~= wins.skip(1));
        assert(forall|i: int|
            0 <= i < wins.drop_first().len() ==> (#[trigger] wins.drop_first()[i]).1 >= 0);
        lemma_real_len(s, wins.drop_first(), ws, k);
    }
}

/// A leaf's complex vector holds one pair per window count.
pub proof fn lemma_complex_len(s: Seq<u8>, wins: Seq<(int, int)>, ws: int, k: int, v: Seq<(u64, u64)>)
    requires
        forall|i: int| 0 <= i < wins.len() ==> (#[trigger] wins[i]).1 >= 0,
        spec_complex_samples(s, wins, ws, k) == Ok::<Seq<(u64, u64)>, PsfError>(v),
    ensures
        v.len() == wins_total(wins),
    decreases wins.len(),
{
    if wins.len() > 0 {
        assert(wins.drop_first() =~= wins.skip(1));
        assert(forall|i: int|
            0 <= i < wins.drop_first().len() ==> (#[trigger] wins.drop_first()[i]).1 >= 0);
        match spec_complex_samples(s, wins.drop_first(), ws, k) {
            Ok(rest) => {
                lemma_complex_len(s, wins.drop_first(), ws, k, rest);
            },
            Err(_) => {},
        }
    }
}

/// Every resolved sample kind comes from the leaf's type record, and is real
/// or complex.
pub proof fn lemma_resolve_props(types: Seq<SpecTypeDef>, tids: Seq<TypeId>, dts: Seq<DataType>)
    requires
        spec_resolve(types, tids) == Ok::<Seq<DataType>, PsfError>(dts),
    ensures
        dts.len() == tids.len(),
        forall|k: int|
            0 <= k < tids.len() ==> match crate::ast::spec_types_lookup(types, tids[k]) {
                Some(t) => t.data_type == #[trigger] dts[k] && (dts[k] == DataType::Real || dts[k]
                    == DataType::Complex),
                None => false,
            },
    decreases tids.len(),
{
    if tids.len() > 0 {
        match crate::ast::spec_types_lookup(types, tids.first()) {
            Some(t) => {
                if t.data_type == DataType::Real || t.data_type == DataType::Complex {
                    match spec_resolve(types, tids.drop_first()) {
                        Ok(rest) => {
                            lemma_resolve_props(types, tids.drop_first(), rest);
                            assert(forall|k: int|
                                1 <= k < tids.len() ==> tids.drop_first()[k - 1] == #[trigger] tids[k]);
                            assert(forall|k: int|
                                1 <= k < dts.len() ==> rest[k - 1] == #[trigger] dts[k]);
                        },
                        Err(_) => {},
                    }
                }
            },
            None => {},
        }
    }
}

/// Every decoded leaf entry carries its leaf's identifier, the vector kind
/// its resolved data type selects, and one sample per window count.
pub proof fn lemma_samples_from_props(
    s: Seq<u8>,
    wins: Seq<(int, int)>,
    ws: int,
    ids: Seq<TraceId>,
    dts: Seq<DataType>,
    k: int,
    entries: Seq<(TraceId, SpecValues)>,
)
    requires
        0 <= k <= ids.len(),
        dts.len() == ids.len(),
        forall|i: int| 0 <= i < wins.len() ==> (#[trigger] wins[i]).1 >= 0,
        spec_samples_from(s, wins, ws, ids, dts, k) == Ok::<Seq<(TraceId, SpecValues)>, PsfError>(
            entries,
        ),
    ensures
        entries.len() == ids.len() - k,
        forall|j: int|
            0 <= j < entries.len() ==> {
                &&& (#[trigger] entries[j]).0 == ids[k + j]
                &&& (dts[k + j] == DataType::Real ==> entries[j].1 is Real)
                &&& (dts[k + j] != DataType::Real ==> entries[j].1 is Complex)
                &&& sample_len(entries[j].1) == wins_total(wins)
            },
    decreases ids.len() - k,
{
    if k < ids.len() {
        let entry: Result<(TraceId, SpecValues), PsfError> = if dts[k] == DataType::Real {
            Ok((ids[k], SpecValues::Real(spec_real_samples(s, wins, ws, k))))
        } else {
            match spec_complex_samples(s, wins, ws, k) {
                Err(e) => Err(e),
                Ok(v) => Ok((ids[k], SpecValues::Complex(v))),
            }
        };
        match entry {
            Ok(en) => {
                if dts[k] == DataType::Real {
                    lemma_real_len(s, wins, ws, k);
                } else {
                    match spec_complex_samples(s, wins, ws, k) {
                        Ok(v) => {
                            lemma_complex_len(s, wins, ws, k, v);
                        },
                        Err(_) => {},
                    }
                }
                match spec_samples_from(s, wins, ws, ids, dts, k + 1) {
                    Ok(rest) => {
                        lemma_samples_from_props(s, wins, ws, ids, dts, k + 1, rest);
                        assert(entries == seq![en] + rest);
                        assert(entries[0] == en);
                        assert(forall|j: int| 1 <= j < entries.len() ==> #[trigger] entries[j] == rest[j - 1]);
                    },
                    Err(_) => {},
                }
            },
            Err(_) => {},
        }
    } else {
        assert(entries =~= Seq::<(TraceId, SpecValues)>::empty());
    }
}

/// Sample-count conservation: when a windowed decode succeeds, the window
/// counts consumed add up to the header's sweep-point count exactly, so the
/// sweep vector and every leaf's vector hold exactly `sp` samples.
pub proof fn lemma_sample_conservation(
    s: Seq<u8>,
    start: int,
    ws: int,
    nt: int,
    sp: int,
    sweep: SpecSignalRef,
    traces: Seq<SpecTrace>,
    types: Seq<SpecTypeDef>,
    entries: Seq<(TraceId, SpecValues)>,
)
    requires
        0 <= start,
        0 <= sp,
        spec_decode_values(s, start, ws, nt, sp, sweep, traces, types) == Ok::<
            Seq<(TraceId, SpecValues)>,
            PsfError,
        >(entries),
    ensures
        entries.len() == spec_flatten(traces).len() + 1,
        entries[0].0 == sweep.id,
        entries[0].1 is Real,
        sample_len(entries[0].1) == sp,
        forall|j: int|
            1 <= j < entries.len() ==> (#[trigger] entries[j]).0 == spec_flatten(traces)[j - 1].id
                && sample_len(entries[j].1) == sp,
{
    let fl = spec_flatten(traces);
    let l = be_u32_at(s, start + 12) as int;
    let wstart = start + 20 + l;
    match spec_first_dup(sig_ids(fl)) {
        None => {
            match spec_resolve(types, sig_tids(fl)) {
                Ok(dts) => {
                    lemma_resolve_props(types, sig_tids(fl), dts);
                    match spec_windows(s, wstart, sp, ws, nt * ws) {
                        Ok(wins) => {
                            lemma_windows_ok(s, wstart, sp, ws, nt * ws, wins);
                            lemma_sweep_len(s, wins);
                            match spec_samples_from(s, wins, ws, sig_ids(fl), dts, 0) {
                                Ok(inner) => {
                                    lemma_samples_from_props(s, wins, ws, sig_ids(fl), dts, 0, inner);
                                    assert(entries == seq![
                                        (sweep.id, SpecValues::Real(spec_sweep_samples(s, wins))),
                                    ] + inner);
                                    assert(forall|j: int|
                                        1 <= j < entries.len() ==> #[trigger] entries[j] == inner[j
                                            - 1]);
                                },
                                Err(_) => {},
                            }
                        },
                        Err(_) => {},
                    }
                },
                Err(_) => {},
            }
        },
        Some(_) => {},
    }
}

/// Type dispatch: when a windowed decode succeeds, a leaf whose resolved data
/// type is `Real` always yields a real vector, and one whose resolved type is
/// `Complex` always yields a vector of pairs.
pub proof fn lemma_type_dispatch(
    s: Seq<u8>,
    start: int,
    ws: int,
    nt: int,
    sp: int,
    sweep: SpecSignalRef,
    traces: Seq<SpecTrace>,
    types: Seq<SpecTypeDef>,
    entries: Seq<(TraceId, SpecValues)>,
)
    requires
        0 <= start,
        0 <= sp,
        spec_decode_values(s, start, ws, nt, sp, sweep, traces, types) == Ok::<
            Seq<(TraceId, SpecValues)>,
            PsfError,
        >(entries),
    ensures
        entries.len() == spec_flatten(traces).len() + 1,
        forall|j: int|
            1 <= j < entries.len() ==> match crate::ast::spec_types_lookup(
                types,
                spec_flatten(traces)[j - 1].type_id,
            ) {
                Some(t) => (t.data_type == DataType::Real ==> (#[trigger] entries[j]).1 is Real) && (
                t.data_type == DataType::Complex ==> entries[j].1 is Complex),
                None => false,
            },
{
    let fl = spec_flatten(traces);
    let l = be_u32_at(s, start + 12) as int;
    let wstart = start + 20 + l;
    match spec_first_dup(sig_ids(fl)) {
        None => {
            match spec_resolve(types, sig_tids(fl)) {
                Ok(dts) => {
                    lemma_resolve_props(types, sig_tids(fl), dts);
                    match spec_windows(s, wstart, sp, ws, nt * ws) {
                        Ok(wins) => {
                            lemma_windows_ok(s, wstart, sp, ws, nt * ws, wins);
                            match spec_samples_from(s, wins, ws, sig_ids(fl), dts, 0) {
                                Ok(inner) => {
                                    lemma_samples_from_props(s, wins, ws, sig_ids(fl), dts, 0, inner);
                                    assert(forall|j: int|
                                        1 <= j < entries.len() ==> #[trigger] entries[j] == inner[j
                                            - 1]);
                                    assert(forall|j: int|
                                        0 <= j < fl.len() ==> sig_tids(fl)[j] == (#[trigger] fl[j]).type_id);
                                },
                                Err(_) => {},
                            }
                        },
                        Err(_) => {},
                    }
                },
                Err(_) => {},
            }
        },
        Some(_) => {},
    }
}

} // verus!
