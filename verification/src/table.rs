use vstd::prelude::*;

use crate::ascii::{SignalValues, Trace};
use crate::ast::Values;
use crate::errors::PsfError;

verus! {

/// The model of a name-keyed table: each entry's name bytes with its payload.
pub open spec fn table_view<T>(v: Seq<(Vec<u8>, T)>) -> Seq<(Seq<u8>, T)> {
    Seq::new(v.len(), |i: int| (v[i].0@, v[i].1))
}

/// The payload of the last entry named `key`, if any: a later entry for the
/// same name overrides an earlier one, as a map insert would.
pub open spec fn spec_assoc<T>(t: Seq<(Seq<u8>, T)>, key: Seq<u8>) -> Option<T>
    decreases t.len(),
{
    if t.len() == 0 {
        None
    } else if t.last().0 == key {
        Some(t.last().1)
    } else {
        spec_assoc(t.drop_last(), key)
    }
}

/// Appends `v` to the samples of the first entry named `key`, or adds a new
/// entry `(key, [v])` at the end when no entry carries that name.
pub open spec fn spec_upsert<T>(acc: Seq<(Seq<u8>, Seq<T>)>, key: Seq<u8>, v: T) -> Seq<
    (Seq<u8>, Seq<T>),
>
    decreases acc.len(),
{
    if acc.len() == 0 {
        seq![(key, seq![v])]
    } else if acc.first().0 == key {
        seq![(acc.first().0, acc.first().1.push(v))] + acc.drop_first()
    } else {
        seq![acc.first()] + spec_upsert(acc.drop_first(), key, v)
    }
}

/// When the first entry named `key` sits at `pos`, an upsert updates exactly
/// that entry.
pub proof fn lemma_upsert_at<T>(acc: Seq<(Seq<u8>, Seq<T>)>, key: Seq<u8>, v: T, pos: int)
    requires
        0 <= pos < acc.len(),
        acc[pos].0 == key,
        forall|i: int| 0 <= i < pos ==> (#[trigger] acc[i]).0 != key,
    ensures
        spec_upsert(acc, key, v) == acc.update(pos, (acc[pos].0, acc[pos].1.push(v))),
    decreases acc.len(),
{
    if pos == 0 {
        assert(seq![(acc.first().0, acc.first().1.push(v))] + acc.drop_first() =~= acc.update(
            0,
            (acc[0].0, acc[0].1.push(v)),
        ));
    } else {
        let rest = acc.drop_first();
        assert(forall|i: int| 0 <= i < pos - 1 ==> (#[trigger] rest[i]).0 != key);
        lemma_upsert_at(rest, key, v, pos - 1);
        assert(seq![acc.first()] + rest.update(pos - 1, (rest[pos - 1].0, rest[pos - 1].1.push(v)))
            =~= acc.update(pos, (acc[pos].0, acc[pos].1.push(v))));
    }
}

/// When no entry carries `key`, an upsert appends a fresh entry.
pub proof fn lemma_upsert_absent<T>(acc: Seq<(Seq<u8>, Seq<T>)>, key: Seq<u8>, v: T)
    requires
        forall|i: int| 0 <= i < acc.len() ==> (#[trigger] acc[i]).0 != key,
    ensures
        spec_upsert(acc, key, v) == acc.push((key, seq![v])),
    decreases acc.len(),
{
    if acc.len() == 0 {
        assert(spec_upsert(acc, key, v) =~= acc.push((key, seq![v])));
    } else {
        let rest = acc.drop_first();
        assert(forall|i: int| 0 <= i < rest.len() ==> (#[trigger] rest[i]).0 != key);
        lemma_upsert_absent(rest, key, v);
        assert(seq![acc.first()] + rest.push((key, seq![v])) =~= acc.push((key, seq![v])));
    }
}

/// Appends one sample to `key`'s entry, adding the entry if it is new.
#[verifier::loop_isolation(false)]
pub fn upsert<T>(acc: &mut Vec<(Vec<u8>, Vec<T>)>, key: Vec<u8>, v: T)
    ensures
        table_view_samples(final(acc)@) == spec_upsert(table_view_samples(old(acc)@), key@, v),
{
    let n = acc.len();
    let mut i: usize = 0;
    while i < n
        invariant
            i <= n,
            n == acc@.len(),
            acc@ == old(acc)@,
            forall|ii: int| 0 <= ii < i ==> (#[trigger] table_view_samples(acc@)[ii]).0 != key@,
        decreases n - i,
    {
        if crate::ast::bytes_eq(acc[i].0.as_slice(), key.as_slice()) {
            let ghost pre = table_view_samples(acc@);
            let (k, mut vs) = acc.remove(i);
            vs.push(v);
            acc.insert(i, (k, vs));
            proof {
                lemma_upsert_at(pre, key@, v, i as int);
                assert(table_view_samples(acc@) =~= pre.update(
                    i as int,
                    (pre[i as int].0, pre[i as int].1.push(v)),
                ));
            }
            return ;
        }
        i = i + 1;
    }
    let ghost pre = table_view_samples(acc@);
    let mut fresh: Vec<T> = Vec::new();
    fresh.push(v);
    acc.push((key, fresh));
    proof {
        lemma_upsert_absent(pre, key@, v);
        assert(table_view_samples(acc@) =~= pre.push((key@, seq![v])));
    }
}

/// The model of a sample table: each entry's name bytes with its sample list.
pub open spec fn table_view_samples<T>(v: Seq<(Vec<u8>, Vec<T>)>) -> Seq<(Seq<u8>, Seq<T>)> {
    Seq::new(v.len(), |i: int| (v[i].0@, v[i].1@))
}

/// Looks a signal up by name, taking the last entry when names repeat.
#[verifier::loop_isolation(false)]
pub fn table_get<'a, T>(t: &'a Vec<(Vec<u8>, Vec<T>)>, name: &[u8]) -> (r: Option<&'a Vec<T>>)
    ensures
        match r {
            Some(v) => spec_assoc(table_view_samples(t@), name@) == Some(v@),
            None => spec_assoc(table_view_samples(t@), name@) is None,
        },
{
    let n = t.len();
    proof {
        assert(table_view_samples(t@).take(n as int) =~= table_view_samples(t@));
    }
    let mut i: usize = n;
    while i > 0
        invariant
            i <= n,
            n == t@.len(),
            spec_assoc(table_view_samples(t@), name@) == spec_assoc(
                table_view_samples(t@).take(i as int),
                name@,
            ),
        decreases i,
    {
        i = i - 1;
        proof {
            assert(table_view_samples(t@).take(i + 1).drop_last() =~= table_view_samples(
                t@,
            ).take(i as int));
            assert(table_view_samples(t@).take(i + 1).last() == table_view_samples(t@)[i as int]);
        }
        if crate::ast::bytes_eq(t[i].0.as_slice(), name) {
            return Some(&t[i].1);
        }
    }
    proof {
        assert(table_view_samples(t@).take(0) =~= Seq::<(Seq<u8>, Seq<T>)>::empty());
    }
    None
}

/// The group-to-member alias map built from the trace list: a group
/// header maps its name to each member in turn (the last member winning), a
/// standalone signal maps its name to itself. A negative declared count, a
/// member list that runs past the trace list, or a group inside a group's
/// member span leaves the flattening convention and is unsupported.
pub open spec fn spec_groups(traces: Seq<Trace>, i: int) -> Result<Seq<(Seq<u8>, Seq<u8>)>, PsfError>
    decreases traces.len() - i,
{
    if i < 0 || i >= traces.len() {
        Ok(Seq::empty())
    } else {
        match traces[i] {
            Trace::Signal { name, .. } => match spec_groups(traces, i + 1) {
                Err(e) => Err(e),
                Ok(rest) => Ok(seq![(name@, name@)] + rest),
            },
            Trace::Group { name: g, count } => if count < 0 || i + count + 1 > traces.len() {
                Err(PsfError::UnsupportedLayout)
            } else {
                match spec_group_members(traces, i + 1, count as int, g@) {
                    Err(e) => Err(e),
                    Ok(members) => match spec_groups(traces, i + 1 + count as int) {
                        Err(e) => Err(e),
                        Ok(rest) => Ok(members + rest),
                    },
                }
            },
        }
    }
}

/// The alias entries a group's `count` members contribute, each mapping
/// the group's name to the member's.
pub open spec fn spec_group_members(traces: Seq<Trace>, i: int, count: int, g: Seq<u8>) -> Result<
    Seq<(Seq<u8>, Seq<u8>)>,
    PsfError,
>
    decreases count,
{
    if count <= 0 {
        Ok(Seq::empty())
    } else if !(0 <= i < traces.len()) {
        Err(PsfError::UnsupportedLayout)
    } else {
        match traces[i] {
            Trace::Group { .. } => Err(PsfError::UnsupportedLayout),
            Trace::Signal { name, .. } => match spec_group_members(traces, i + 1, count - 1, g) {
                Err(e) => Err(e),
                Ok(rest) => Ok(seq![(g, name@)] + rest),
            },
        }
    }
}

/// The model of a group-alias map table.
pub open spec fn groups_view(v: Seq<(Vec<u8>, Vec<u8>)>) -> Seq<(Seq<u8>, Seq<u8>)> {
    Seq::new(v.len(), |i: int| (v[i].0@, v[i].1@))
}

/// Builds the group-to-member alias map from the trace list,
/// under the flattening convention: a group with declared count one is an
/// alias for its single member, larger groups keep their last member, and
/// standalone signals stand for themselves.
#[verifier::loop_isolation(false)]
#[verifier::rlimit(100)]
pub fn build_groups(traces: &Vec<Trace>) -> (r: Result<Vec<(Vec<u8>, Vec<u8>)>, PsfError>)
    ensures
        match r {
            Ok(g) => spec_groups(traces@, 0) == Ok::<Seq<(Seq<u8>, Seq<u8>)>, PsfError>(
                groups_view(g@),
            ),
            Err(e) => spec_groups(traces@, 0) == Err::<Seq<(Seq<u8>, Seq<u8>)>, PsfError>(e),
        },
{
    let n = traces.len();
    let mut out: Vec<(Vec<u8>, Vec<u8>)> = Vec::new();
    let mut i: usize = 0;
    proof {
        assert(groups_view(out@) =~= Seq::<(Seq<u8>, Seq<u8>)>::empty());
        if let Ok(rest) = spec_groups(traces@, 0) {
            assert(Seq::<(Seq<u8>, Seq<u8>)>::empty() + rest =~= rest);
        }
    }
    while i < n
        invariant
            i <= n,
            n == traces@.len(),
            match spec_groups(traces@, i as int) {
                Ok(rest) => spec_groups(traces@, 0) == Ok::<Seq<(Seq<u8>, Seq<u8>)>, PsfError>(
                    groups_view(out@) + rest,
                ),
                Err(e) => spec_groups(traces@, 0) == Err::<Seq<(Seq<u8>, Seq<u8>)>, PsfError>(e),
            },
        decreases n - i,
    {
        match &traces[i] {
            Trace::Signal { name, .. } => {
                let ghost pre = out@;
                let nm = vstd::slice::slice_to_vec(name.as_slice());
                let nm2 = vstd::slice::slice_to_vec(name.as_slice());
                out.push((nm, nm2));
                proof {
                    assert(groups_view(out@) =~= groups_view(pre) + seq![(name@, name@)]);
                    if let Ok(rest2) = spec_groups(traces@, i + 1) {
                        assert(groups_view(pre) + (seq![(name@, name@)] + rest2) =~= (groups_view(
                            pre,
                        ) + seq![(name@, name@)]) + rest2);
                    }
                }
                i = i + 1;
            },
            Trace::Group { name: g, count } => {
                let count = *count;
                if count < 0 || (count as u64) > (n - i - 1) as u64 {
                    return Err(PsfError::UnsupportedLayout);
                }
                let m = count as usize;
                proof {
                    assert(m == count as int);
                }
                let ghost done = groups_view(out@);
                let mut j: usize = 0;
                proof {
                    if let Ok(ms) = spec_group_members(traces@, i + 1, count as int, g@) {
                        assert(Seq::<(Seq<u8>, Seq<u8>)>::empty() + ms =~= ms);
                    }
                }
                while j < m
                    invariant
                        j <= m,
                        i + m < n + 1,
                        n == traces@.len(),
                        groups_view(out@).len() == done.len() + j,
                        done == groups_view(out@).take(done.len() as int),
                        match spec_group_members(traces@, i + 1 + j, m - j, g@) {
                            Ok(ms) => spec_group_members(traces@, i + 1, m as int, g@) == Ok::<
                                Seq<(Seq<u8>, Seq<u8>)>,
                                PsfError,
                            >(groups_view(out@).skip(done.len() as int) + ms),
                            Err(e) => spec_group_members(traces@, i + 1, m as int, g@) == Err::<
                                Seq<(Seq<u8>, Seq<u8>)>,
                                PsfError,
                            >(e),
                        },
                    decreases m - j,
                {
                    match &traces[i + 1 + j] {
                        Trace::Group { .. } => {
                            return Err(PsfError::UnsupportedLayout);
                        },
                        Trace::Signal { name, .. } => {
                            let ghost pre = out@;
                            let gk = vstd::slice::slice_to_vec(g.as_slice());
                            let nm = vstd::slice::slice_to_vec(name.as_slice());
                            out.push((gk, nm));
                            proof {
                                assert(groups_view(out@) =~= groups_view(pre) + seq![(g@, name@)]);
                                assert(groups_view(out@).skip(done.len() as int) =~= groups_view(
                                    pre,
                                ).skip(done.len() as int) + seq![(g@, name@)]);
                                assert(groups_view(out@).take(done.len() as int) =~= groups_view(
                                    pre,
                                ).take(done.len() as int));
                                if let Ok(ms2) = spec_group_members(
                                    traces@,
                                    i + 1 + j + 1,
                                    m - j - 1,
                                    g@,
                                ) {
                                    assert(groups_view(pre).skip(done.len() as int) + (seq![
                                        (g@, name@),
                                    ] + ms2) =~= (groups_view(pre).skip(done.len() as int) + seq![
                                        (g@, name@),
                                    ]) + ms2);
                                }
                            }
                            j = j + 1;
                        },
                    }
                }
                proof {
                    assert(groups_view(out@).skip(done.len() as int) + Seq::<
                        (Seq<u8>, Seq<u8>),
                    >::empty() =~= groups_view(out@).skip(done.len() as int));
                    assert(done + groups_view(out@).skip(done.len() as int) =~= groups_view(out@));
                    if let Ok(rest2) = spec_groups(traces@, i + 1 + m) {
                        assert(done + (groups_view(out@).skip(done.len() as int) + rest2) =~= (done
                            + groups_view(out@).skip(done.len() as int)) + rest2);
                    }
                }
                i = i + 1 + m;
            },
        }
    }
    proof {
        assert(groups_view(out@) + Seq::<(Seq<u8>, Seq<u8>)>::empty() =~= groups_view(out@));
    }
    Ok(out)
}

/// Looks a name up in the alias map, taking the last entry.
#[verifier::loop_isolation(false)]
pub fn groups_get<'a>(t: &'a Vec<(Vec<u8>, Vec<u8>)>, name: &[u8]) -> (r: Option<&'a Vec<u8>>)
    ensures
        match r {
            Some(v) => spec_assoc(groups_view(t@), name@) == Some(v@),
            None => spec_assoc(groups_view(t@), name@) is None,
        },
{
    let n = t.len();
    proof {
        assert(groups_view(t@).take(n as int) =~= groups_view(t@));
    }
    let mut i: usize = n;
    while i > 0
        invariant
            i <= n,
            n == t@.len(),
            spec_assoc(groups_view(t@), name@) == spec_assoc(groups_view(t@).take(i as int), name@),
        decreases i,
    {
        i = i - 1;
        proof {
            assert(groups_view(t@).take(i + 1).drop_last() =~= groups_view(t@).take(i as int));
            assert(groups_view(t@).take(i + 1).last() == groups_view(t@)[i as int]);
        }
        if crate::ast::bytes_eq(t[i].0.as_slice(), name) {
            return Some(&t[i].1);
        }
    }
    proof {
        assert(groups_view(t@).take(0) =~= Seq::<(Seq<u8>, Seq<u8>)>::empty());
    }
    None
}

/// A name taken from an entry of the table always looks up to something.
pub proof fn lemma_assoc_present<T>(t: Seq<(Seq<u8>, T)>, k: int)
    requires
        0 <= k < t.len(),
    ensures
        spec_assoc(t, t[k].0) is Some,
    decreases t.len(),
{
    if t.last().0 != t[k].0 {
        assert(k < t.len() - 1);
        assert(t.drop_last()[k] == t[k]);
        lemma_assoc_present(t.drop_last(), k);
    }
}

/// Folds value records into the sample table from record `i` on: each record
/// must hold exactly one real sample under a declared signal name, and that
/// sample is appended to the signal's vector; a record carrying any other
/// sample count is an inconsistency, never silently truncated.
pub open spec fn spec_accumulate_values(
    values: Seq<SignalValues>,
    groups: Seq<(Seq<u8>, Seq<u8>)>,
    i: int,
    acc: Seq<(Seq<u8>, Seq<u64>)>,
) -> Result<Seq<(Seq<u8>, Seq<u64>)>, PsfError>
    decreases values.len() - i,
{
    if i < 0 || i >= values.len() {
        Ok(acc)
    } else {
        match values[i].values {
            Values::Complex(_) => Err(PsfError::UnsupportedDataType { got: 12 }),
            Values::Real(v) => if v@.len() != 1 {
                Err(PsfError::InconsistentSampleCount)
            } else {
                match spec_assoc(groups, values[i].signal@) {
                    None => Err(PsfError::UndeclaredSignal),
                    Some(key) => spec_accumulate_values(
                        values,
                        groups,
                        i + 1,
                        spec_upsert(acc, key, v@[0]),
                    ),
                }
            },
        }
    }
}

/// The bytes of the literal signal key `"time"`.
pub open spec fn time_key() -> Seq<u8> {
    seq![116u8, 105, 109, 101]
}

/// The literal signal key `"time"` as runtime bytes.
pub fn time_key_bytes() -> (r: Vec<u8>)
    ensures
        r@ == time_key(),
{
    let mut v: Vec<u8> = Vec::new();
    v.push(116);
    v.push(105);
    v.push(109);
    v.push(101);
    proof {
        assert(v@ =~= time_key());
    }
    v
}

/// The bytes of the literal signal key `"freq"`.
pub open spec fn freq_key() -> Seq<u8> {
    seq![102u8, 114, 101, 113]
}

/// The literal signal key `"freq"` as runtime bytes.
pub fn freq_key_bytes() -> (r: Vec<u8>)
    ensures
        r@ == freq_key(),
{
    let mut v: Vec<u8> = Vec::new();
    v.push(102);
    v.push(114);
    v.push(101);
    v.push(113);
    proof {
        assert(v@ =~= freq_key());
    }
    v
}

} // verus!
