//! Orders issues newest first by the date in their file names, keeping the
//! input order among equal dates.
use vstd::prelude::*;
use crate::dates::{DateKey, key_lt, date_key, date_key_of, date_match, is_older, undated_key};
use crate::model::Issue;

verus! {

/// `p` lists the positions of `keys` newest first; positions of equal keys
/// stay in increasing order.
pub open spec fn is_stable_newest_first(keys: Seq<DateKey>, p: Seq<int>) -> bool {
    &&& p.len() == keys.len()
    &&& forall|i: int| 0 <= i < p.len() ==> 0 <= #[trigger] p[i] < keys.len()
    &&& forall|i: int, j: int| 0 <= i < j < p.len() ==> p[i] != p[j]
    &&& forall|i: int, j: int| 0 <= i < j < p.len() ==> !key_lt(keys[p[i]], keys[p[j]])
    &&& forall|i: int, j: int|
        0 <= i < j < p.len() && keys[p[i]] == keys[p[j]] ==> p[i] < p[j]
}

/// `out` is `inp` rearranged by the positions `p`.
pub open spec fn is_arranged_by(inp: Seq<Issue>, out: Seq<Issue>, p: Seq<int>) -> bool {
    &&& out.len() == p.len()
    &&& forall|i: int| 0 <= i < out.len() ==> out[i] == inp[#[trigger] p[i]]
}

/// `out` holds the issues of `inp`, newest first by `keys`, equal keys in
/// input order.
pub open spec fn is_sorted_by_keys(inp: Seq<Issue>, out: Seq<Issue>, keys: Seq<DateKey>) -> bool {
    &&& keys.len() == inp.len()
    &&& exists|p: Seq<int>| is_stable_newest_first(keys, p) && is_arranged_by(inp, out, p)
}

/// The sort keys of the issues' file names.
pub open spec fn issue_keys(issues: Seq<Issue>) -> Seq<DateKey> {
    issues.map_values(|x: Issue| date_key(x.pdf@))
}

/// `out` holds the issues of `inp`, newest first by the date in each file
/// name, equal dates in input order.
pub open spec fn is_sorted_by_date(inp: Seq<Issue>, out: Seq<Issue>) -> bool {
    is_sorted_by_keys(inp, out, issue_keys(inp))
}

/// Orders `issues` newest first by `keys`, the key of each issue at the
/// same position; equal keys keep their input order.
pub fn sort_by_keys(issues: Vec<Issue>, keys: Vec<DateKey>) -> (r: Vec<Issue>)
    requires
        keys.len() == issues.len(),
    ensures
        is_sorted_by_keys(issues@, r@, keys@),
{
    let ghost orig = issues@;
    let ghost n = issues.len() as int;
    let mut rest = issues;
    let mut out: Vec<Issue> = Vec::new();
    let mut out_keys: Vec<DateKey> = Vec::new();
    let ghost mut p: Seq<int> = Seq::empty();
    while rest.len() > 0
        invariant
            keys.len() == n,
            orig.len() == n,
            rest@ == orig.subrange(0, rest.len() as int),
            p.len() == out.len(),
            out_keys.len() == out.len(),
            out.len() + rest.len() == n,
            forall|i: int| 0 <= i < p.len() ==> rest.len() <= #[trigger] p[i] < n,
            forall|i: int| 0 <= i < p.len() ==> out_keys@[i] == keys@[#[trigger] p[i]],
            forall|i: int| 0 <= i < out.len() ==> out@[i] == orig[#[trigger] p[i]],
            forall|i: int, j: int| 0 <= i < j < p.len() ==> p[i] != p[j],
            forall|i: int, j: int| 0 <= i < j < p.len() ==> !key_lt(keys@[p[i]], keys@[p[j]]),
            forall|i: int, j: int|
                0 <= i < j < p.len() && keys@[p[i]] == keys@[p[j]] ==> p[i] < p[j],
        decreases rest.len(),
    {
        let m = rest.len() - 1;
        let x = rest.pop().unwrap();
        let k = keys[m];
        let mut pos: usize = 0;
        while pos < out_keys.len() && is_older(&k, &out_keys[pos])
            invariant
                pos <= out_keys.len(),
                forall|i: int| 0 <= i < pos ==> key_lt(k, #[trigger] out_keys@[i]),
            decreases out_keys.len() - pos,
        {
            pos = pos + 1;
        }
        proof {
            assert(forall|i: int| 0 <= i < pos ==> key_lt(k, #[trigger] keys@[p[i]]));
            assert forall|j: int| pos <= j < p.len() implies !key_lt(k, #[trigger] keys@[p[j]]) by {
                assert(!key_lt(k, out_keys@[pos as int]));
                if j > pos {
                    assert(!key_lt(keys@[p[pos as int]], keys@[p[j]]));
                }
            }
            let q = p.insert(pos as int, m as int);
            assert forall|i: int, j: int| 0 <= i < j < q.len() implies !key_lt(
                keys@[q[i]],
                keys@[q[j]],
            ) by {
                if j < pos {
                } else if j == pos {
                    assert(key_lt(k, keys@[p[i]]));
                } else if i < pos {
                    assert(q[j] == p[j - 1]);
                } else if i == pos {
                    assert(q[j] == p[j - 1]);
                } else {
                    assert(q[i] == p[i - 1]);
                    assert(q[j] == p[j - 1]);
                }
            }
        }
        out.insert(pos, x);
        out_keys.insert(pos, k);
        proof {
            p = p.insert(pos as int, m as int);
        }
    }
    proof {
        assert(is_stable_newest_first(keys@, p));
        assert(is_arranged_by(orig, out@, p));
    }
    out
}

/// Orders `issues` newest first by the first `YYYY-MM-DD` date in each
/// file name; names without one count as year 0, January 1. Equal dates
/// keep their input order.
pub fn sort_issues(issues: Vec<Issue>) -> (r: Vec<Issue>)
    ensures
        is_sorted_by_date(issues@, r@),
{
    let mut keys: Vec<DateKey> = Vec::new();
    let mut i: usize = 0;
    while i < issues.len()
        invariant
            i <= issues.len(),
            keys@ == issue_keys(issues@).subrange(0, i as int),
        decreases issues.len() - i,
    {
        let k = date_key_of(issues[i].pdf.as_str());
        keys.push(k);
        assert(keys@ =~= issue_keys(issues@).subrange(0, i + 1));
        i = i + 1;
    }
    assert(keys@ =~= issue_keys(issues@));
    sort_by_keys(issues, keys)
}

/// After sorting, issues whose file name holds a date come newest first and
/// before every issue whose name holds none, and the issues without a date
/// keep their input order. This holds where every date found is later than
/// year 0, January 1, the key of a name without a date.
pub proof fn lemma_undated_issues_last(inp: Seq<Issue>, out: Seq<Issue>)
    requires
        is_sorted_by_date(inp, out),
        forall|i: int|
            0 <= i < inp.len() && date_match(#[trigger] inp[i].pdf@) is Some ==> key_lt(
                undated_key(),
                date_key(inp[i].pdf@),
            ),
    ensures
        forall|i: int, j: int|
            0 <= i < j < out.len() && date_match(#[trigger] out[j].pdf@) is Some ==> date_match(
                #[trigger] out[i].pdf@,
            ) is Some,
        forall|i: int, j: int|
            0 <= i < j < out.len() ==> !key_lt(
                date_key(#[trigger] out[i].pdf@),
                date_key(#[trigger] out[j].pdf@),
            ),
        exists|p: Seq<int>|
            is_arranged_by(inp, out, p) && forall|i: int, j: int|
                0 <= i < j < out.len() && date_match(#[trigger] out[i].pdf@) is None
                    && date_match(#[trigger] out[j].pdf@) is None ==> p[i] < p[j],
{
    let keys = issue_keys(inp);
    let p = choose|p: Seq<int>| is_stable_newest_first(keys, p) && is_arranged_by(inp, out, p);
    assert forall|i: int| 0 <= i < out.len() implies date_key(#[trigger] out[i].pdf@)
        == keys[p[i]] && out[i] == inp[p[i]] by {
        assert(out[i] == inp[p[i]]);
    }
    assert forall|i: int, j: int|
        0 <= i < j < out.len() && date_match(#[trigger] out[j].pdf@) is Some implies date_match(
            #[trigger] out[i].pdf@,
        ) is Some by {
        assert(date_key(out[j].pdf@) == keys[p[j]]);
        assert(date_key(out[i].pdf@) == keys[p[i]]);
        assert(!key_lt(keys[p[i]], keys[p[j]]));
        assert(key_lt(undated_key(), date_key(inp[p[j]].pdf@)));
    }
    assert forall|i: int, j: int| 0 <= i < j < out.len() implies !key_lt(
        date_key(#[trigger] out[i].pdf@),
        date_key(#[trigger] out[j].pdf@),
    ) by {
        assert(date_key(out[j].pdf@) == keys[p[j]]);
        assert(date_key(out[i].pdf@) == keys[p[i]]);
    }
    assert forall|i: int, j: int|
        0 <= i < j < out.len() && date_match(#[trigger] out[i].pdf@) is None && date_match(
            #[trigger] out[j].pdf@,
        ) is None implies p[i] < p[j] by {
        assert(date_key(out[j].pdf@) == keys[p[j]]);
        assert(date_key(out[i].pdf@) == keys[p[i]]);
    }
}

} // verus!
