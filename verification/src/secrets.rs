//! Secret aggregation: the explicit names resolved from the process
//! environment, a dotenv source and a secrets file are concatenated in
//! that order, and duplicate names resolve last-write-wins when the pairs
//! are later applied as a process environment.

use crate::job::view_env;
use crate::job::view_opt_string;
use crate::util::str_eq;
use vstd::prelude::*;

verus! {

/// A named secret missing from the process environment.
#[derive(Debug, Clone, PartialEq, Eq)]
pub enum SecretError {
    NotFound { name: String },
}

/// The ghost values underlying the explicit-secret list: each requested
/// name with the value the environment held for it, if any.
pub open spec fn view_explicit(v: Seq<(String, Option<String>)>) -> Seq<
    (Seq<char>, Option<Seq<char>>),
> {
    v.map_values(|p: (String, Option<String>)| (p.0@, view_opt_string(p.1)))
}

/// The resolved explicit pairs, assuming every name found a value.
pub open spec fn spec_explicit_values(e: Seq<(Seq<char>, Option<Seq<char>>)>) -> Seq<
    (Seq<char>, Seq<char>),
> {
    e.map_values(|p: (Seq<char>, Option<Seq<char>>)| (p.0, p.1->0))
}

/// Concatenate the three secret sources in order: explicit names first,
/// then dotenv entries, then secrets-file entries. Fails on the first
/// explicit name that the environment did not hold, before any job runs.
pub fn aggregate_secrets(
    explicit: &Vec<(String, Option<String>)>,
    dotenv: &Vec<(String, String)>,
    json: &Vec<(String, String)>,
) -> (r: Result<Vec<(String, String)>, SecretError>)
    ensures
        ({
            let ev = view_explicit(explicit@);
            match r {
                Ok(pairs) => {
                    &&& forall|i: int| 0 <= i < ev.len() ==> (#[trigger] ev[i]).1 is Some
                    &&& view_env(pairs@) == spec_explicit_values(ev) + view_env(dotenv@)
                        + view_env(json@)
                },
                Err(e) => {
                    &&& e matches SecretError::NotFound { name } && exists|i: int|
                        0 <= i < ev.len() && (#[trigger] ev[i]).1 is None && name@ == ev[i].0
                            && (forall|j: int| 0 <= j < i ==> (#[trigger] ev[j]).1 is Some)
                },
            }
        }),
{
    let ghost ev = view_explicit(explicit@);
    let mut out: Vec<(String, String)> = Vec::new();
    let mut i: usize = 0;
    while i < explicit.len()
        invariant
            ev == view_explicit(explicit@),
            i <= explicit@.len(),
            out@.len() == i,
            forall|j: int| 0 <= j < i ==> (#[trigger] ev[j]).1 is Some,
            forall|j: int|
                0 <= j < i ==> (#[trigger] view_env(out@)[j]) == (ev[j].0, ev[j].1->0),
        decreases explicit@.len() - i,
    {
        let pair = &explicit[i];
        let ghost prev = out@;
        match &pair.1 {
            Some(value) => {
                out.push((pair.0.clone(), value.clone()));
                proof {
                    assert(view_env(out@) =~= view_env(prev).push((pair.0@, value@)));
                    assert(ev[i as int] == (pair.0@, Some(value@)));
                }
            },
            None => {
                proof {
                    assert(ev[i as int] == (pair.0@, view_opt_string(pair.1)));
                    assert(ev[i as int].1 is None);
                }
                return Err(SecretError::NotFound { name: pair.0.clone() });
            },
        }
        i += 1;
    }
    let mut i: usize = 0;
    let ghost n_explicit = ev.len() as int;
    while i < dotenv.len()
        invariant
            ev == view_explicit(explicit@),
            n_explicit == ev.len(),
            i <= dotenv@.len(),
            out@.len() == n_explicit + i,
            forall|j: int| 0 <= j < n_explicit ==> (#[trigger] ev[j]).1 is Some,
            forall|j: int|
                0 <= j < n_explicit ==> (#[trigger] view_env(out@)[j]) == (ev[j].0, ev[j].1->0),
            forall|j: int|
                n_explicit <= j < n_explicit + i ==> (#[trigger] view_env(out@)[j]) == view_env(
                    dotenv@,
                )[j - n_explicit],
        decreases dotenv@.len() - i,
    {
        let pair = &dotenv[i];
        let ghost prev = out@;
        out.push((pair.0.clone(), pair.1.clone()));
        proof {
            assert(view_env(out@) =~= view_env(prev).push((pair.0@, pair.1@)));
            assert(view_env(dotenv@)[i as int] == (pair.0@, pair.1@));
        }
        i += 1;
    }
    let mut i: usize = 0;
    let ghost n_dotenv = dotenv@.len() as int;
    while i < json.len()
        invariant
            ev == view_explicit(explicit@),
            n_explicit == ev.len(),
            n_dotenv == dotenv@.len(),
            i <= json@.len(),
            out@.len() == n_explicit + n_dotenv + i,
            forall|j: int| 0 <= j < n_explicit ==> (#[trigger] ev[j]).1 is Some,
            forall|j: int|
                0 <= j < n_explicit ==> (#[trigger] view_env(out@)[j]) == (ev[j].0, ev[j].1->0),
            forall|j: int|
                n_explicit <= j < n_explicit + n_dotenv ==> (#[trigger] view_env(out@)[j])
                    == view_env(dotenv@)[j - n_explicit],
            forall|j: int|
                n_explicit + n_dotenv <= j < n_explicit + n_dotenv + i ==> (
                #[trigger] view_env(out@)[j]) == view_env(json@)[j - n_explicit - n_dotenv],
        decreases json@.len() - i,
    {
        let pair = &json[i];
        let ghost prev = out@;
        out.push((pair.0.clone(), pair.1.clone()));
        proof {
            assert(view_env(out@) =~= view_env(prev).push((pair.0@, pair.1@)));
            assert(view_env(json@)[i as int] == (pair.0@, pair.1@));
        }
        i += 1;
    }
    proof {
        assert(view_env(out@) =~= spec_explicit_values(ev) + view_env(dotenv@) + view_env(json@));
    }
    Ok(out)
}

/// The value the last pair with key `k` carries, if any.
pub open spec fn spec_lookup_last(env: Seq<(Seq<char>, Seq<char>)>, k: Seq<char>) -> Option<
    Seq<char>,
>
    decreases env.len(),
{
    if env.len() == 0 {
        None
    } else if env.last().0 == k {
        Some(env.last().1)
    } else {
        spec_lookup_last(env.drop_last(), k)
    }
}

/// Whether some pair carries the key `k`.
pub open spec fn spec_has_key(env: Seq<(Seq<char>, Seq<char>)>, k: Seq<char>) -> bool {
    exists|i: int| 0 <= i < env.len() && (#[trigger] env[i]).0 == k
}

/// The position of the first pair carrying the key `k`, or the list's
/// length when none does.
pub open spec fn spec_first_index(env: Seq<(Seq<char>, Seq<char>)>, k: Seq<char>) -> int
    decreases env.len(),
{
    if env.len() == 0 {
        0
    } else if env[0].0 == k {
        0
    } else {
        1 + spec_first_index(env.skip(1), k)
    }
}

proof fn lemma_first_index_nonneg(env: Seq<(Seq<char>, Seq<char>)>, k: Seq<char>)
    ensures
        spec_first_index(env, k) >= 0,
    decreases env.len(),
{
    if env.len() > 0 && env[0].0 != k {
        lemma_first_index_nonneg(env.skip(1), k);
    }
}

proof fn lemma_first_index_le_occurrence(env: Seq<(Seq<char>, Seq<char>)>, k: Seq<char>, p: int)
    requires
        0 <= p < env.len(),
        env[p].0 == k,
    ensures
        spec_first_index(env, k) <= p,
    decreases env.len(),
{
    if env[0].0 != k {
        lemma_first_index_le_occurrence(env.skip(1), k, p - 1);
    }
}

proof fn lemma_first_index_past_prefix(env: Seq<(Seq<char>, Seq<char>)>, k: Seq<char>, i: int)
    requires
        0 <= i <= env.len(),
        forall|j: int| 0 <= j < i ==> (#[trigger] env[j]).0 != k,
    ensures
        spec_first_index(env, k) >= i,
    decreases i,
{
    lemma_first_index_nonneg(env, k);
    if i > 0 {
        assert(env[0].0 != k);
        assert forall|j: int| 0 <= j < i - 1 implies (#[trigger] env.skip(1)[j]).0 != k by {
            assert(env.skip(1)[j] == env[j + 1]);
        }
        lemma_first_index_past_prefix(env.skip(1), k, i - 1);
        assert(spec_first_index(env, k) == 1 + spec_first_index(env.skip(1), k));
    }
}

/// The index of the entry carrying `key`, if one exists.
fn find_key(v: &Vec<(String, String)>, key: &str) -> (r: Option<usize>)
    ensures
        match r {
            Some(j) => (j as int) < v@.len() && view_env(v@)[j as int].0 == key@,
            None => !spec_has_key(view_env(v@), key@),
        },
{
    let mut j: usize = 0;
    let n = v.len();
    while j < n
        invariant
            n == v@.len(),
            j <= n,
            forall|b: int| 0 <= b < j ==> (#[trigger] view_env(v@)[b]).0 != key@,
        decreases n - j,
    {
        if str_eq(v[j].0.as_str(), key) {
            proof {
                assert(view_env(v@)[j as int].0 == key@);
            }
            return Some(j);
        }
        j += 1;
    }
    proof {
        if spec_has_key(view_env(v@), key@) {
            let b = choose|b: int| 0 <= b < view_env(v@).len() && (#[trigger] view_env(v@)[b]).0 == key@;
            assert(false);
        }
    }
    None
}

/// The environment a process sees when `pairs` are applied in order: each
/// name once, carrying the value of its last occurrence.
#[verifier::rlimit(100)]
pub fn effective_env(pairs: &Vec<(String, String)>) -> (r: Vec<(String, String)>)
    ensures
        ({
            let ev = view_env(pairs@);
            let rv = view_env(r@);
            &&& forall|i: int, j: int| 0 <= i < j < rv.len() ==> (#[trigger] rv[i]).0 != (
            #[trigger] rv[j]).0
            &&& forall|i: int|
                0 <= i < rv.len() ==> spec_lookup_last(ev, (#[trigger] rv[i]).0) == Some(rv[i].1)
            &&& forall|i: int| 0 <= i < ev.len() ==> spec_has_key(rv, (#[trigger] ev[i]).0)
            &&& forall|i: int, j: int|
                0 <= i < j < rv.len() ==> spec_first_index(ev, (#[trigger] rv[i]).0)
                    < spec_first_index(ev, (#[trigger] rv[j]).0)
        }),
{
    let ghost ev = view_env(pairs@);
    let mut out: Vec<(String, String)> = Vec::new();
    let mut i: usize = 0;
    while i < pairs.len()
        invariant
            ev == view_env(pairs@),
            i <= pairs@.len(),
            forall|a: int, b: int|
                0 <= a < b < view_env(out@).len() ==> (#[trigger] view_env(out@)[a]).0 != (
                #[trigger] view_env(out@)[b]).0,
            forall|a: int|
                0 <= a < view_env(out@).len() ==> spec_lookup_last(
                    ev.take(i as int),
                    (#[trigger] view_env(out@)[a]).0,
                ) == Some(view_env(out@)[a].1),
            forall|a: int| 0 <= a < i ==> spec_has_key(view_env(out@), (#[trigger] ev[a]).0),
            forall|a: int|
                0 <= a < view_env(out@).len() ==> spec_first_index(
                    ev,
                    (#[trigger] view_env(out@)[a]).0,
                ) < i,
            forall|a: int, b: int|
                0 <= a < b < view_env(out@).len() ==> spec_first_index(
                    ev,
                    (#[trigger] view_env(out@)[a]).0,
                ) < spec_first_index(ev, (#[trigger] view_env(out@)[b]).0),
        decreases pairs@.len() - i,
    {
        let pair = &pairs[i];
        let ghost prev = view_env(out@);
        let found = find_key(&out, pair.0.as_str());
        match found {
            Some(j) => {
                out.set(j, (pair.0.clone(), pair.1.clone()));
                proof {
                    assert(view_env(out@) =~= prev.update(
                        j as int,
                        (ev[i as int].0, ev[i as int].1),
                    ));
                }
            },
            None => {
                out.push((pair.0.clone(), pair.1.clone()));
                proof {
                    assert(view_env(out@) =~= prev.push((ev[i as int].0, ev[i as int].1)));
                }
            },
        }
        proof {
            let cur = view_env(out@);
            let key = ev[i as int].0;
            assert(ev.take(i + 1).drop_last() =~= ev.take(i as int));
            assert(ev.take(i + 1).last() == ev[i as int]);
            assert forall|a: int, b: int|
                0 <= a < b < cur.len() implies (#[trigger] cur[a]).0 != (#[trigger] cur[b]).0 by {
                match found {
                    Some(j) => {
                        assert(prev[j as int].0 == key);
                        assert(cur[a].0 == prev[a].0);
                        assert(cur[b].0 == prev[b].0);
                    },
                    None => {
                        if b == cur.len() - 1 {
                            assert(cur[b].0 == key);
                            assert(cur[a] == prev[a]);
                            assert(!spec_has_key(prev, key));
                            if cur[a].0 == key {
                                assert(spec_has_key(prev, key));
                            }
                        } else {
                            assert(cur[a] == prev[a] && cur[b] == prev[b]);
                        }
                    },
                }
            }
            assert forall|a: int| 0 <= a < cur.len() implies spec_lookup_last(
                ev.take(i + 1),
                (#[trigger] cur[a]).0,
            ) == Some(cur[a].1) by {
                if cur[a].0 == key {
                    match found {
                        Some(j) => {
                            if a != j {
                                assert(cur[a] == prev[a]);
                                assert(prev[a].0 == key && prev[j as int].0 == key);
                                if a < j {
                                    assert(prev[a].0 != prev[j as int].0);
                                } else {
                                    assert(prev[j as int].0 != prev[a].0);
                                }
                            }
                            assert(a == j);
                            assert(cur[a].1 == ev[i as int].1);
                        },
                        None => {
                            if a < prev.len() {
                                assert(cur[a] == prev[a]);
                                assert(spec_has_key(prev, key));
                                assert(!spec_has_key(prev, key));
                            }
                            assert(a == cur.len() - 1);
                            assert(cur[a].1 == ev[i as int].1);
                        },
                    }
                    assert(spec_lookup_last(ev.take(i + 1), key) == Some(ev[i as int].1));
                } else {
                    assert(spec_lookup_last(ev.take(i + 1), cur[a].0) == spec_lookup_last(
                        ev.take(i as int),
                        cur[a].0,
                    ));
                    match found {
                        Some(j) => {
                            if a == j {
                                assert(cur[a].0 == key);
                            }
                            assert(cur[a] == prev[a]);
                        },
                        None => {
                            if a == cur.len() - 1 && cur.len() == prev.len() + 1 {
                                assert(cur[a].0 == key);
                            }
                            assert(cur[a] == prev[a]);
                        },
                    }
                    assert(spec_lookup_last(ev.take(i as int), prev[a].0) == Some(prev[a].1));
                }
            }
            assert forall|a: int| 0 <= a < i + 1 implies spec_has_key(
                cur,
                (#[trigger] ev[a]).0,
            ) by {
                if a == i {
                    match found {
                        Some(j) => {
                            assert(cur[j as int].0 == key);
                        },
                        None => {
                            assert(cur[cur.len() - 1].0 == key);
                        },
                    }
                } else {
                    let b = choose|b: int|
                        0 <= b < prev.len() && (#[trigger] prev[b]).0 == ev[a].0;
                    match found {
                        Some(j) => {
                            if b == j {
                                assert(cur[b].0 == key && prev[b].0 == key);
                            } else {
                                assert(cur[b] == prev[b]);
                            }
                            assert(cur[b].0 == ev[a].0);
                        },
                        None => {
                            assert(cur[b] == prev[b]);
                        },
                    }
                    assert(spec_has_key(cur, ev[a].0));
                }
            }
            // Keys keep the order of their first occurrence.
            assert forall|a: int| 0 <= a < cur.len() implies spec_first_index(
                ev,
                (#[trigger] cur[a]).0,
            ) < i + 1 by {
                if a < prev.len() && cur[a] == prev[a] {
                } else {
                    assert(cur[a].0 == key);
                    lemma_first_index_le_occurrence(ev, key, i as int);
                }
                if a < prev.len() {
                    match found {
                        Some(j) => {
                            if a == j as int {
                                assert(prev[a].0 == key && cur[a].0 == key);
                            } else {
                                assert(cur[a] == prev[a]);
                            }
                        },
                        None => {
                            assert(cur[a] == prev[a]);
                        },
                    }
                    assert(spec_first_index(ev, prev[a].0) < i);
                    assert(cur[a].0 == prev[a].0);
                }
            }
            assert forall|a: int, b: int| 0 <= a < b < cur.len() implies spec_first_index(
                ev,
                (#[trigger] cur[a]).0,
            ) < spec_first_index(ev, (#[trigger] cur[b]).0) by {
                match found {
                    Some(j) => {
                        assert(cur[a].0 == prev[a].0);
                        assert(cur[b].0 == prev[b].0);
                    },
                    None => {
                        if b < prev.len() {
                            assert(cur[a] == prev[a] && cur[b] == prev[b]);
                        } else {
                            // The pushed key first occurs at exactly this
                            // position: it is absent from the processed
                            // prefix, else it would already be present.
                            assert(cur[b].0 == key);
                            assert(cur[a] == prev[a]);
                            assert(spec_first_index(ev, prev[a].0) < i);
                            assert forall|p: int| 0 <= p < i implies (#[trigger] ev[p]).0
                                != key by {
                                if ev[p].0 == key {
                                    assert(spec_has_key(prev, ev[p].0));
                                    assert(!spec_has_key(prev, key));
                                }
                            }
                            lemma_first_index_past_prefix(ev, key, i as int);
                        }
                    },
                }
            }
        }
        i += 1;
    }
    proof {
        assert(ev.take(ev.len() as int) =~= ev);
    }
    out
}

} // verus!
