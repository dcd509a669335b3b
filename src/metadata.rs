use vstd::prelude::*;

use crate::bytes::{read_string, read_u32, spec_read_string, spec_u32};
use crate::error::GgufError;
use crate::value::{model_of, read_value, spec_read_value, Value, ValueModel, MAX_ARRAY_DEPTH};

verus! {

/// A key and its value, as read from the metadata section.
pub type EntryModel = (Seq<char>, ValueModel);

/// A non-fatal anomaly met while decoding.
#[derive(Debug, Clone, PartialEq, Eq)]
pub enum Diagnostic {
    DuplicateMetadataKey(String),
}

pub open spec fn entry_model(e: (String, Value)) -> EntryModel {
    (e.0@, model_of(e.1))
}

pub open spec fn entries_model(es: Seq<(String, Value)>) -> Seq<EntryModel> {
    es.map_values(|e: (String, Value)| entry_model(e))
}

/// One metadata entry at `p`: key, value-type code, value.
pub open spec fn spec_read_entry(s: Seq<u8>, p: int) -> Result<(EntryModel, int), GgufError> {
    match spec_read_string(s, p) {
        Err(e) => Err(e),
        Ok((k, q)) => if q + 4 > s.len() {
            Err(GgufError::Truncated)
        } else {
            match spec_read_value(s, q + 4, spec_u32(s, q), MAX_ARRAY_DEPTH as nat) {
                Err(e) => Err(e),
                Ok((v, q2)) => Ok(((k, v), q2)),
            }
        },
    }
}

/// `n` consecutive metadata entries starting at `p`, in file order.
pub open spec fn spec_read_entries(s: Seq<u8>, p: int, n: nat) -> Result<(Seq<EntryModel>, int), GgufError>
    decreases n,
{
    if n == 0 {
        Ok((Seq::empty(), p))
    } else {
        match spec_read_entries(s, p, (n - 1) as nat) {
            Err(e) => Err(e),
            Ok((es, q)) => match spec_read_entry(s, q) {
                Err(e) => Err(e),
                Ok((kv, q2)) => Ok((es.push(kv), q2)),
            },
        }
    }
}

/// The value bound to `k`: the last entry with that key wins.
pub open spec fn lookup(es: Seq<EntryModel>, k: Seq<char>) -> Option<ValueModel>
    decreases es.len(),
{
    if es.len() == 0 {
        None
    } else if es.last().0 == k {
        Some(es.last().1)
    } else {
        lookup(es.drop_last(), k)
    }
}

/// Whether some entry of `es` has key `k`.
pub open spec fn has_key(es: Seq<EntryModel>, k: Seq<char>) -> bool {
    exists|j: int| 0 <= j < es.len() && es[j].0 == k
}

/// Keys that repeat an earlier entry's key, once per repetition, in file order.
pub open spec fn duplicate_keys(es: Seq<EntryModel>) -> Seq<Seq<char>>
    decreases es.len(),
{
    if es.len() == 0 {
        Seq::empty()
    } else if has_key(es.drop_last(), es.last().0) {
        duplicate_keys(es.drop_last()).push(es.last().0)
    } else {
        duplicate_keys(es.drop_last())
    }
}

pub open spec fn diagnostics_model(ds: Seq<Diagnostic>) -> Seq<Seq<char>> {
    ds.map_values(|d: Diagnostic| match d {
        Diagnostic::DuplicateMetadataKey(k) => k@,
    })
}

proof fn lemma_entries_error_persists(s: Seq<u8>, p: int, k: nat, m: nat)
    requires
        k <= m,
        spec_read_entries(s, p, k) is Err,
    ensures
        spec_read_entries(s, p, m) == spec_read_entries(s, p, k),
    decreases m,
{
    if k < m {
        lemma_entries_error_persists(s, p, k, (m - 1) as nat);
    }
}

/// Whether an entry of `es` already has key `k`.
fn contains_key(es: &Vec<(String, Value)>, k: &String) -> (r: bool)
    ensures
        r == has_key(entries_model(es@), k@),
{
    let mut i: usize = 0;
    while i < es.len()
        invariant
            i <= es@.len(),
            forall|j: int| 0 <= j < i ==> es@[j].0@ != k@,
        decreases es@.len() - i,
    {
        if es[i].0 == *k {
            assert(entries_model(es@)[i as int].0 == k@);
            return true;
        }
        i = i + 1;
    }
    assert forall|j: int| 0 <= j < entries_model(es@).len() implies entries_model(es@)[j].0 != k@ by {
        assert(entries_model(es@)[j] == entry_model(es@[j]));
    }
    false
}

/// Reads `n` metadata entries starting at `pos`, with a diagnostic for each key
/// that repeats an earlier one.
pub fn read_entries(data: &[u8], pos: usize, n: u64) -> (r: Result<(Vec<(String, Value)>, Vec<Diagnostic>, usize), GgufError>)
    ensures
        match r {
            Ok((es, ds, q)) => spec_read_entries(data@, pos as int, n as nat) == Ok::<(Seq<EntryModel>, int), GgufError>((entries_model(es@), q as int))
                && diagnostics_model(ds@) == duplicate_keys(entries_model(es@)),
            Err(e) => spec_read_entries(data@, pos as int, n as nat) == Err::<(Seq<EntryModel>, int), GgufError>(e),
        },
{
    let mut es: Vec<(String, Value)> = Vec::new();
    let mut ds: Vec<Diagnostic> = Vec::new();
    let mut cur = pos;
    let mut i: u64 = 0;
    assert(entries_model(es@) =~= Seq::<EntryModel>::empty());
    assert(diagnostics_model(ds@) =~= Seq::<Seq<char>>::empty());
    while i < n
        invariant
            i <= n,
            spec_read_entries(data@, pos as int, i as nat) == Ok::<(Seq<EntryModel>, int), GgufError>((entries_model(es@), cur as int)),
            diagnostics_model(ds@) == duplicate_keys(entries_model(es@)),
        decreases n - i,
    {
        let step = read_entry(data, cur);
        match step {
            Ok((k, v, q)) => {
                let dup = contains_key(&es, &k);
                let ghost old_es = es@;
                let ghost old_ds = ds@;
                if dup {
                    ds.push(Diagnostic::DuplicateMetadataKey(k.clone()));
                }
                es.push((k, v));
                assert(entries_model(es@).drop_last() =~= entries_model(old_es));
                assert(entries_model(es@) =~= entries_model(old_es).push(entry_model(es@.last())));
                if dup {
                    assert(diagnostics_model(ds@) =~= diagnostics_model(old_ds).push(es@.last().0@));
                } else {
                    assert(diagnostics_model(ds@) =~= diagnostics_model(old_ds));
                }
                cur = q;
            },
            Err(e) => {
                proof {
                    lemma_entries_error_persists(data@, pos as int, (i + 1) as nat, n as nat);
                }
                return Err(e);
            },
        }
        i = i + 1;
    }
    Ok((es, ds, cur))
}

/// Reads one metadata entry at `pos`.
fn read_entry(data: &[u8], pos: usize) -> (r: Result<(String, Value, usize), GgufError>)
    ensures
        match r {
            Ok((k, v, q)) => spec_read_entry(data@, pos as int) == Ok::<(EntryModel, int), GgufError>(((k@, model_of(v)), q as int)),
            Err(e) => spec_read_entry(data@, pos as int) == Err::<(EntryModel, int), GgufError>(e),
        },
{
    let (k, p) = read_string(data, pos)?;
    let (t, p) = read_u32(data, p)?;
    let (v, q) = read_value(data, p, t, MAX_ARRAY_DEPTH)?;
    Ok((k, v, q))
}

/// The value bound to `k` in `es`, the last entry with that key winning.
pub fn find<'a>(es: &'a Vec<(String, Value)>, k: &String) -> (r: Option<&'a Value>)
    ensures
        match r {
            Some(v) => lookup(entries_model(es@), k@) == Some(model_of(*v)),
            None => lookup(entries_model(es@), k@) is None,
        },
{
    let mut i: usize = es.len();
    assert(entries_model(es@).take(i as int) =~= entries_model(es@));
    while i > 0
        invariant
            i <= es@.len(),
            lookup(entries_model(es@).take(i as int), k@) == lookup(entries_model(es@), k@),
        decreases i,
    {
        assert(entries_model(es@).take(i as int).drop_last() =~= entries_model(es@).take(i - 1));
        if es[i - 1].0 == *k {
            return Some(&es[i - 1].1);
        }
        i = i - 1;
    }
    None
}

} // verus!
