//! Deduplication, scoring and the rendering of reports.

use vstd::prelude::*;
use sha2::{Digest, Sha256};
use crate::keyed::{NameMap, ascending, keys_of, lemma_precedes_irreflexive, precedes, put_all};
use crate::models::{AgentOutput, EnhancedReport, SwarmResults, TrendAnalysis};
use crate::text::{concat_map, decimal, join, lemma_concat_map_step, lemma_take_all, pad_right, push_decimal, push_padded, push_repeat, push_str, repeat};

verus! {

/// The lower-case hexadecimal SHA-256 digest of the UTF-8 bytes of a text.
pub uninterp spec fn sha256_hex(content: Seq<char>) -> Seq<char>;

/// Trusted: `sha2::Sha256` (`new`, `update`, `finalize`) on the UTF-8 bytes
/// of `content`, written out with the `{:x}` format. The contract says only
/// that the digest text is a function of the content.
#[verifier::external_body]
fn hash_content(content: &str) -> (h: String)
    ensures
        h@ == sha256_hex(content@),
{
    let mut hasher = Sha256::new();
    hasher.update(content.as_bytes());
    format!("{:x}", hasher.finalize())
}

/// The digests of the contents of the outputs in `s`.
pub open spec fn content_hashes(s: Seq<(Seq<char>, AgentOutput)>) -> Seq<Seq<char>> {
    s.map_values(|e: (Seq<char>, AgentOutput)| sha256_hex(e.1.content@))
}

/// The outputs of `s` in key order, each kept unless an earlier output
/// has a content with the same digest.
pub open spec fn dedup_spec(s: Seq<(Seq<char>, AgentOutput)>) -> Seq<(Seq<char>, AgentOutput)>
    decreases s.len(),
{
    if s.len() == 0 {
        s
    } else if content_hashes(s.drop_last()).contains(sha256_hex(s.last().1.content@)) {
        dedup_spec(s.drop_last())
    } else {
        dedup_spec(s.drop_last()).push(s.last())
    }
}

pub proof fn lemma_push_contains<T>(s: Seq<T>, x: T, h: T)
    ensures
        s.push(x).contains(h) == (s.contains(h) || h == x),
{
    if s.push(x).contains(h) {
        let i = choose|i: int| 0 <= i < s.push(x).len() && s.push(x)[i] == h;
        if i < s.len() {
            assert(s[i] == h);
        }
    }
    if s.contains(h) {
        let i = choose|i: int| 0 <= i < s.len() && s[i] == h;
        assert(s.push(x)[i] == h);
    }
    if h == x {
        assert(s.push(x)[s.len() as int] == h);
    }
}

proof fn lemma_dedup_hashes(s: Seq<(Seq<char>, AgentOutput)>)
    ensures
        forall|h: Seq<char>| content_hashes(dedup_spec(s)).contains(h) <==> content_hashes(s).contains(h),
        forall|i: int| 0 <= i < dedup_spec(s).len() ==> exists|j: int| 0 <= j < s.len() && #[trigger] dedup_spec(s)[i] == s[j],
    decreases s.len(),
{
    if s.len() > 0 {
        let p = s.drop_last();
        lemma_dedup_hashes(p);
        assert(content_hashes(s) =~= content_hashes(p).push(sha256_hex(s.last().1.content@)));
        let d = dedup_spec(s);
        let dp = dedup_spec(p);
        let x = sha256_hex(s.last().1.content@);
        assert forall|h: Seq<char>| content_hashes(d).contains(h) <==> content_hashes(s).contains(h) by {
            lemma_push_contains(content_hashes(p), x, h);
            lemma_push_contains(content_hashes(dp), x, h);
            if !content_hashes(p).contains(x) {
                assert(content_hashes(d) =~= content_hashes(dp).push(x));
            }
        }
        if !content_hashes(p).contains(sha256_hex(s.last().1.content@)) {
            assert(content_hashes(d) =~= content_hashes(dp).push(sha256_hex(s.last().1.content@)));
            assert forall|i: int| 0 <= i < d.len() implies exists|j: int| 0 <= j < s.len() && #[trigger] d[i] == s[j] by {
                if i < dp.len() {
                    let j = choose|j: int| 0 <= j < p.len() && dp[i] == p[j];
                    assert(d[i] == s[j]);
                } else {
                    assert(d[i] == s[s.len() - 1]);
                }
            }
        } else {
            assert forall|i: int| 0 <= i < d.len() implies exists|j: int| 0 <= j < s.len() && #[trigger] d[i] == s[j] by {
                let j = choose|j: int| 0 <= j < p.len() && dp[i] == p[j];
                assert(d[i] == s[j]);
            }
        }
    }
}

proof fn lemma_dedup_distinct(s: Seq<(Seq<char>, AgentOutput)>)
    ensures
        content_hashes(dedup_spec(s)).no_duplicates(),
    decreases s.len(),
{
    if s.len() > 0 {
        let p = s.drop_last();
        lemma_dedup_distinct(p);
        lemma_dedup_hashes(p);
        let dp = dedup_spec(p);
        if !content_hashes(p).contains(sha256_hex(s.last().1.content@)) {
            assert(content_hashes(dedup_spec(s)) =~= content_hashes(dp).push(sha256_hex(s.last().1.content@)));
        }
    }
}

/// Deduplication keeps one output for each distinct content digest: the
/// digests of the result are distinct, so no two outputs kept have the same
/// content; they are exactly the digests of the input; and every output
/// kept is an output of the input.
pub proof fn law_dedup_keeps_one_per_digest(s: Seq<(Seq<char>, AgentOutput)>)
    ensures
        content_hashes(dedup_spec(s)).no_duplicates(),
        forall|i: int, j: int|
            0 <= i < j < dedup_spec(s).len() ==> (#[trigger] dedup_spec(s)[i]).1.content@ != (
            #[trigger] dedup_spec(s)[j]).1.content@,
        forall|h: Seq<char>| content_hashes(dedup_spec(s)).contains(h) <==> content_hashes(s).contains(h),
        forall|i: int| 0 <= i < dedup_spec(s).len() ==> exists|j: int| 0 <= j < s.len() && #[trigger] dedup_spec(s)[i] == s[j],
{
    lemma_dedup_distinct(s);
    lemma_dedup_hashes(s);
    let d = dedup_spec(s);
    assert forall|i: int, j: int| 0 <= i < j < d.len() implies (#[trigger] d[i]).1.content@ != (#[trigger] d[j]).1.content@ by {
        assert(content_hashes(d)[i] != content_hashes(d)[j]);
    }
}

/// The output kept for a digest is the first one in key order that has
/// it: an output of the input is kept exactly when no output before it has
/// a content with the same digest.
pub proof fn law_dedup_keeps_first(s: Seq<(Seq<char>, AgentOutput)>)
    requires
        ascending(s),
    ensures
        forall|j: int|
            0 <= j < s.len() ==> (#[trigger] dedup_spec(s).contains(s[j]) <==> !content_hashes(s.take(j)).contains(
                sha256_hex(s[j].1.content@),
            )),
    decreases s.len(),
{
    if s.len() > 0 {
        let p = s.drop_last();
        let last = s.last();
        let n = s.len() - 1;
        let x = sha256_hex(last.1.content@);
        assert(ascending(p));
        law_dedup_keeps_first(p);
        lemma_dedup_hashes(p);
        let dp = dedup_spec(p);
        assert(s.take(n) =~= p);
        assert(!dp.contains(last)) by {
            if dp.contains(last) {
                let i = choose|i: int| 0 <= i < dp.len() && dp[i] == last;
                let k = choose|k: int| 0 <= k < p.len() && #[trigger] dp[i] == p[k];
                assert(precedes(s[k].0, s[n].0));
                assert(s[k] == p[k]);
                lemma_precedes_irreflexive(last.0);
            }
        }
        assert forall|j: int| 0 <= j < s.len() implies (#[trigger] dedup_spec(s).contains(s[j])
            <==> !content_hashes(s.take(j)).contains(sha256_hex(s[j].1.content@))) by {
            if j < n {
                assert(s[j] == p[j]);
                assert(s.take(j) =~= p.take(j));
                assert(s[j] != last) by {
                    assert(precedes(s[j].0, s[n].0));
                    if s[j] == last {
                        lemma_precedes_irreflexive(last.0);
                    }
                }
                if !content_hashes(p).contains(x) {
                    lemma_push_contains(dp, last, s[j]);
                }
            } else {
                if !content_hashes(p).contains(x) {
                    lemma_push_contains(dp, last, last);
                }
            }
        }
    }
}

/// Whether different contents among the outputs of `s` have different
/// digests.
pub open spec fn digests_tell_apart(s: Seq<(Seq<char>, AgentOutput)>) -> bool {
    forall|i: int, j: int|
        0 <= i < s.len() && 0 <= j < s.len() && s[i].1.content@ != s[j].1.content@ ==> sha256_hex(
            #[trigger] s[i].1.content@,
        ) != sha256_hex(#[trigger] s[j].1.content@)
}

proof fn lemma_digest_seen(s: Seq<(Seq<char>, AgentOutput)>, j: int)
    requires
        digests_tell_apart(s),
        0 <= j < s.len(),
    ensures
        content_hashes(s.take(j)).contains(sha256_hex(s[j].1.content@)) <==> exists|k: int|
            0 <= k < j && #[trigger] s[k].1.content@ == s[j].1.content@,
{
    let hs = content_hashes(s.take(j));
    let x = sha256_hex(s[j].1.content@);
    if hs.contains(x) {
        let m = choose|m: int| 0 <= m < hs.len() && hs[m] == x;
        assert(hs[m] == sha256_hex(s[m].1.content@));
        assert(s[m].1.content@ == s[j].1.content@);
    }
    if exists|k: int| 0 <= k < j && #[trigger] s[k].1.content@ == s[j].1.content@ {
        let k = choose|k: int| 0 <= k < j && #[trigger] s[k].1.content@ == s[j].1.content@;
        assert(hs[k] == x);
    }
}

proof fn lemma_content_kept(s: Seq<(Seq<char>, AgentOutput)>, j: int)
    requires
        ascending(s),
        digests_tell_apart(s),
        0 <= j < s.len(),
    ensures
        exists|i: int| 0 <= i < dedup_spec(s).len() && #[trigger] dedup_spec(s)[i].1.content@ == s[j].1.content@,
    decreases j,
{
    law_dedup_keeps_first(s);
    lemma_digest_seen(s, j);
    let d = dedup_spec(s);
    if exists|k: int| 0 <= k < j && #[trigger] s[k].1.content@ == s[j].1.content@ {
        let k = choose|k: int| 0 <= k < j && #[trigger] s[k].1.content@ == s[j].1.content@;
        lemma_content_kept(s, k);
    } else {
        assert(d.contains(s[j]));
        let i = choose|i: int| 0 <= i < d.len() && d[i] == s[j];
        assert(d[i].1.content@ == s[j].1.content@);
    }
}

/// Where different contents have different digests, deduplication works by
/// content: every content of the input is kept, and the output kept for a
/// content is the first in key order, that is the one under the least key,
/// that has it.
pub proof fn law_dedup_by_content(s: Seq<(Seq<char>, AgentOutput)>)
    requires
        ascending(s),
        digests_tell_apart(s),
    ensures
        forall|j: int|
            0 <= j < s.len() ==> exists|i: int|
                0 <= i < dedup_spec(s).len() && #[trigger] dedup_spec(s)[i].1.content@ == #[trigger] s[j].1.content@,
        forall|j: int|
            0 <= j < s.len() ==> (#[trigger] dedup_spec(s).contains(s[j]) <==> !exists|k: int|
                0 <= k < j && #[trigger] s[k].1.content@ == s[j].1.content@),
{
    law_dedup_keeps_first(s);
    assert forall|j: int| 0 <= j < s.len() implies exists|i: int|
        0 <= i < dedup_spec(s).len() && #[trigger] dedup_spec(s)[i].1.content@ == #[trigger] s[j].1.content@ by {
        lemma_content_kept(s, j);
    }
    assert forall|j: int| 0 <= j < s.len() implies (#[trigger] dedup_spec(s).contains(s[j]) <==> !exists|k: int|
        0 <= k < j && #[trigger] s[k].1.content@ == s[j].1.content@) by {
        lemma_digest_seen(s, j);
    }
}

proof fn lemma_dedup_identity(s: Seq<(Seq<char>, AgentOutput)>)
    requires
        content_hashes(s).no_duplicates(),
    ensures
        dedup_spec(s) == s,
    decreases s.len(),
{
    if s.len() > 0 {
        let p = s.drop_last();
        assert(content_hashes(p) =~= content_hashes(s).drop_last());
        lemma_dedup_identity(p);
        let x = sha256_hex(s.last().1.content@);
        if content_hashes(p).contains(x) {
            let j = choose|j: int| 0 <= j < content_hashes(p).len() && content_hashes(p)[j] == x;
            assert(content_hashes(s)[j] == content_hashes(s)[s.len() - 1]);
        }
        assert(p.push(s.last()) =~= s);
    }
}

/// Deduplicating twice gives what deduplicating once gives.
pub proof fn law_dedup_idempotent(s: Seq<(Seq<char>, AgentOutput)>)
    ensures
        dedup_spec(dedup_spec(s)) == dedup_spec(s),
{
    lemma_dedup_distinct(s);
    lemma_dedup_identity(dedup_spec(s));
}

fn text_in(list: &Vec<String>, t: &String) -> (r: bool)
    ensures
        r == list@.map_values(|x: String| x@).contains(t@),
{
    let ghost v = list@.map_values(|x: String| x@);
    let mut i: usize = 0;
    while i < list.len()
        invariant
            v == list@.map_values(|x: String| x@),
            i <= list@.len(),
            forall|j: int| 0 <= j < i ==> v[j] != t@,
        decreases list@.len() - i,
    {
        if list[i] == *t {
            assert(v[i as int] == t@);
            return true;
        }
        i = i + 1;
    }
    false
}

/// Drops every output whose content has the same digest as that of an
/// output earlier in key order.
pub fn deduplicate_agent_outputs(outputs: NameMap<AgentOutput>) -> (r: NameMap<AgentOutput>)
    ensures
        r.view() == dedup_spec(outputs.view()),
{
    outputs.note_ascending();
    let ghost s = outputs.view();
    let mut rest = outputs.into_entries();
    let mut seen: Vec<String> = Vec::new();
    let mut deduped: NameMap<AgentOutput> = NameMap::new();
    let mut p: usize = 0;
    proof {
        assert(rest@.map_values(|e: (String, AgentOutput)| (e.0@, e.1)) =~= s.skip(0));
        assert(s.take(0) =~= Seq::<(Seq<char>, AgentOutput)>::empty());
    }
    let total = rest.len();
    assert(rest@.len() == s.len());
    assert(s.len() == total);
    while rest.len() > 0
        invariant
            s.len() <= usize::MAX,
            ascending(s),
            p <= s.len(),
            rest@.map_values(|e: (String, AgentOutput)| (e.0@, e.1)) == s.skip(p as int),
            deduped.view() == dedup_spec(s.take(p as int)),
            forall|h: Seq<char>| seen@.map_values(|x: String| x@).contains(h) <==> content_hashes(s.take(p as int)).contains(h),
            forall|i: int, k: int| 0 <= i < deduped.view().len() && p <= k < s.len() ==> precedes(#[trigger] deduped.view()[i].0, #[trigger] s[k].0),
        decreases rest@.len(),
    {
        let ghost bv = rest@.map_values(|e: (String, AgentOutput)| (e.0@, e.1));
        assert(bv.len() == s.len() - p);
        let (key, value) = rest.remove(0);
        assert(s.skip(p as int)[0] == s[p as int]);
        assert(bv[0] == (key@, value));
        assert(rest@.map_values(|e: (String, AgentOutput)| (e.0@, e.1)) =~= bv.drop_first());
        assert(bv.drop_first() =~= s.skip(p + 1));
        let h = hash_content(value.content.as_str());
        let ghost pre = s.take(p as int);
        let ghost next = s.take(p + 1);
        assert(next.drop_last() =~= pre);
        assert(next.last() == s[p as int]);
        assert(content_hashes(next) =~= content_hashes(pre).push(h@));
        let ghost dv = deduped.view();
        let ghost sv = seen@.map_values(|x: String| x@);
        assert forall|g: Seq<char>| content_hashes(next).contains(g) == (content_hashes(pre).contains(g) || g == h@) by {
            lemma_push_contains(content_hashes(pre), h@, g);
        }
        if !text_in(&seen, &h) {
            assert(key@ == s[p as int].0);
            assert forall|i: int| 0 <= i < dv.len() implies precedes(#[trigger] dv[i].0, key@) by {
                assert(precedes(dv[i].0, s[p as int].0));
            }
            deduped.push_last(key, value);
            seen.push(h);
            assert(seen@.map_values(|x: String| x@) =~= sv.push(h@));
            assert forall|g: Seq<char>| seen@.map_values(|x: String| x@).contains(g) <==> content_hashes(next).contains(g) by {
                lemma_push_contains(sv, h@, g);
            }
            assert forall|i: int, k: int| 0 <= i < deduped.view().len() && p + 1 <= k < s.len() implies precedes(
                #[trigger] deduped.view()[i].0,
                #[trigger] s[k].0,
            ) by {
                if i < dv.len() {
                    assert(deduped.view()[i] == dv[i]);
                } else {
                    assert(deduped.view()[i].0 == s[p as int].0);
                }
            }
        }
        p = p + 1;
    }
    assert(s.take(p as int) =~= s);
    deduped
}


/// The sum of the confidences of the outputs in `s`.
pub open spec fn confidence_total(s: Seq<(Seq<char>, AgentOutput)>) -> nat
    decreases s.len(),
{
    if s.len() == 0 {
        0
    } else {
        confidence_total(s.drop_last()) + s.last().1.confidence as nat
    }
}

/// The mean confidence of the outputs in `s`, rounded down; 0 for none.
pub open spec fn average_confidence_spec(s: Seq<(Seq<char>, AgentOutput)>) -> nat {
    if s.len() == 0 {
        0
    } else {
        confidence_total(s) / s.len()
    }
}

proof fn lemma_mean_bound(total: nat, n: nat)
    by (nonlinear_arith)
    requires
        n > 0,
        total <= 255 * n,
    ensures
        total / n <= 255,
{
}

fn average_confidence(results: &SwarmResults) -> (c: u8)
    ensures
        c == average_confidence_spec(results.agent_outputs.view()),
{
    let ghost s = results.agent_outputs.view();
    let n = results.agent_outputs.len();
    if n == 0 {
        return 0;
    }
    let mut total: u128 = 0;
    let mut i: usize = 0;
    while i < n
        invariant
            n == s.len(),
            s == results.agent_outputs.view(),
            i <= n,
            total == confidence_total(s.take(i as int)),
            total <= 255 * i,
        decreases n - i,
    {
        assert(s.take(i + 1).drop_last() =~= s.take(i as int));
        total = total + results.agent_outputs.value_at(i).confidence as u128;
        i = i + 1;
    }
    assert(s.take(n as int) =~= s);
    proof {
        lemma_mean_bound(total as nat, n as nat);
    }
    (total / (n as u128)) as u8
}

/// The confidence score of a run: the mean confidence of its outputs,
/// rounded down, or 0 when there are none.
pub fn confidence_score(results: &SwarmResults) -> (c: u8)
    ensures
        c == average_confidence_spec(results.agent_outputs.view()),
{
    average_confidence(results)
}

/// The views of a list of strings.
pub open spec fn texts(v: Seq<String>) -> Seq<Seq<char>> {
    v.map_values(|s: String| s@)
}

/// The action items of `ins`, in order.
pub open spec fn insight_actions(ins: Seq<crate::models::Insight>) -> Seq<Seq<char>>
    decreases ins.len(),
{
    if ins.len() == 0 {
        Seq::<Seq<char>>::empty()
    } else {
        insight_actions(ins.drop_last()) + texts(ins.last().action_items@)
    }
}

/// The action items of all insights of the outputs in `s`, in key order.
pub open spec fn all_actions(s: Seq<(Seq<char>, AgentOutput)>) -> Seq<Seq<char>>
    decreases s.len(),
{
    if s.len() == 0 {
        Seq::<Seq<char>>::empty()
    } else {
        all_actions(s.drop_last()) + insight_actions(s.last().1.insights@)
    }
}

/// The distinct action items of `s`, in ascending order.
pub open spec fn action_items_spec(s: Seq<(Seq<char>, AgentOutput)>) -> Seq<Seq<char>> {
    keys_of(put_all(Seq::<(Seq<char>, ())>::empty(), all_actions(s), ()))
}

/// The action items of all insights of a run, each once, in ascending
/// order.
pub fn extract_action_items(results: &SwarmResults) -> (items: Vec<String>)
    ensures
        texts(items@) == action_items_spec(results.agent_outputs.view()),
{
    let ghost s = results.agent_outputs.view();
    let ghost empty = Seq::<(Seq<char>, ())>::empty();
    let mut unique: NameMap<()> = NameMap::new();
    let ghost mut acc = Seq::<Seq<char>>::empty();
    let n = results.agent_outputs.len();
    let mut i: usize = 0;
    while i < n
        invariant
            n == s.len(),
            s == results.agent_outputs.view(),
            i <= n,
            acc == all_actions(s.take(i as int)),
            unique.view() == put_all(empty, acc, ()),
        decreases n - i,
    {
        let output = results.agent_outputs.value_at(i);
        let ghost base = acc;
        let mut j: usize = 0;
        while j < output.insights.len()
            invariant
                j <= output.insights@.len(),
                acc == base + insight_actions(output.insights@.take(j as int)),
                unique.view() == put_all(empty, acc, ()),
            decreases output.insights@.len() - j,
        {
            let insight = &output.insights[j];
            let ghost mid = acc;
            let mut k: usize = 0;
            while k < insight.action_items.len()
                invariant
                    k <= insight.action_items@.len(),
                    acc == mid + texts(insight.action_items@.take(k as int)),
                    unique.view() == put_all(empty, acc, ()),
                decreases insight.action_items@.len() - k,
            {
                let item = insight.action_items[k].clone();
                proof {
                    assert(acc.push(item@).drop_last() =~= acc);
                    assert(texts(insight.action_items@.take(k + 1)) =~= texts(insight.action_items@.take(k as int)).push(item@));
                    acc = acc.push(item@);
                }
                unique.insert(item, ());
                assert(acc =~= mid + texts(insight.action_items@.take(k + 1)));
                k = k + 1;
            }
            proof {
                assert(insight.action_items@.take(k as int) =~= insight.action_items@);
                assert(output.insights@.take(j + 1).drop_last() =~= output.insights@.take(j as int));
                assert(acc =~= base + insight_actions(output.insights@.take(j + 1)));
            }
            j = j + 1;
        }
        proof {
            assert(output.insights@.take(j as int) =~= output.insights@);
            assert(s.take(i + 1).drop_last() =~= s.take(i as int));
            assert(acc =~= all_actions(s.take(i + 1)));
        }
        i = i + 1;
    }
    assert(s.take(n as int) =~= s);
    let entries = unique.into_entries();
    let ghost ev = entries@.map_values(|e: (String, ())| (e.0@, e.1));
    let mut items: Vec<String> = Vec::new();
    let mut m: usize = 0;
    while m < entries.len()
        invariant
            ev == entries@.map_values(|e: (String, ())| (e.0@, e.1)),
            ev == put_all(empty, all_actions(s), ()),
            m <= entries@.len(),
            texts(items@) == keys_of(ev).take(m as int),
        decreases entries@.len() - m,
    {
        let ghost before = texts(items@);
        let key = entries[m].0.clone();
        assert(ev[m as int].0 == key@);
        items.push(key);
        assert(texts(items@) =~= before.push(key@));
        assert(texts(items@) =~= keys_of(ev).take(m + 1));
        m = m + 1;
    }
    assert(keys_of(ev).take(m as int) =~= keys_of(ev));
    items
}

proof fn lemma_put_all_lookup(ks: Seq<Seq<char>>, k: Seq<char>)
    ensures
        ascending(put_all(Seq::<(Seq<char>, ())>::empty(), ks, ())),
        (crate::keyed::lookup(put_all(Seq::<(Seq<char>, ())>::empty(), ks, ()), k) is Some) == ks.contains(k),
    decreases ks.len(),
{
    let e = Seq::<(Seq<char>, ())>::empty();
    if ks.len() == 0 {
    } else {
        lemma_put_all_lookup(ks.drop_last(), k);
        crate::keyed::law_read_after_insert(put_all(e, ks.drop_last(), ()), ks.last(), (), k);
        lemma_push_contains(ks.drop_last(), ks.last(), k);
        assert(ks.drop_last().push(ks.last()) =~= ks);
    }
}

/// The action items come out in strictly ascending order, so each at most
/// once, and an item is listed exactly when some insight names it.
pub proof fn law_action_items_sorted_unique(s: Seq<(Seq<char>, AgentOutput)>, k: Seq<char>)
    ensures
        forall|i: int, j: int| 0 <= i < j < action_items_spec(s).len() ==> precedes(
            #[trigger] action_items_spec(s)[i],
            #[trigger] action_items_spec(s)[j],
        ),
        action_items_spec(s).contains(k) == all_actions(s).contains(k),
{
    let m = put_all(Seq::<(Seq<char>, ())>::empty(), all_actions(s), ());
    lemma_put_all_lookup(all_actions(s), k);
    if action_items_spec(s).contains(k) {
        let i = choose|i: int| 0 <= i < action_items_spec(s).len() && action_items_spec(s)[i] == k;
        crate::keyed::lemma_lookup_index(m, i);
    } else {
        assert forall|i: int| 0 <= i < m.len() implies #[trigger] m[i].0 != k by {
            assert(action_items_spec(s)[i] == m[i].0);
        }
        crate::keyed::lemma_lookup_absent(m, k);
    }
}


/// How many `#` the confidence chart draws for a confidence: a fifth,
/// rounded down, and at least one.
pub open spec fn bar_count(confidence: u8) -> nat {
    if confidence / 5 >= 1 { (confidence / 5) as nat } else { 1 }
}

/// The chart line of one output: the name padded to 22 characters, the
/// bar, and the confidence.
pub open spec fn chart_line(e: (Seq<char>, AgentOutput)) -> Seq<char> {
    pad_right(e.1.agent_name@, 22) + " "@ + repeat('#', bar_count(e.1.confidence)) + " "@ + decimal(
        e.1.confidence as nat,
    ) + "\n"@
}

/// The text of the confidence chart.
pub open spec fn confidence_chart(s: Seq<(Seq<char>, AgentOutput)>) -> Seq<char> {
    "Confidence by agent\n\n"@ + concat_map(s, |e: (Seq<char>, AgentOutput)| chart_line(e))
}

/// The charts of a run: one, named `confidence`, with a bar per output in
/// key order.
pub fn generate_ascii_charts(results: &SwarmResults) -> (charts: NameMap<String>)
    ensures
        charts.view().len() == 1,
        charts.view()[0].0 == "confidence"@,
        charts.view()[0].1@ == confidence_chart(results.agent_outputs.view()),
{
    let ghost s = results.agent_outputs.view();
    let ghost f = |e: (Seq<char>, AgentOutput)| chart_line(e);
    let mut text = String::from_str("Confidence by agent\n\n");
    let ghost head = text@;
    let n = results.agent_outputs.len();
    let mut i: usize = 0;
    while i < n
        invariant
            n == s.len(),
            s == results.agent_outputs.view(),
            i <= n,
            head == "Confidence by agent\n\n"@,
            f == (|e: (Seq<char>, AgentOutput)| chart_line(e)),
            text@ == head + concat_map(s.take(i as int), f),
        decreases n - i,
    {
        let output = results.agent_outputs.value_at(i);
        let ghost before = text@;
        let fifth = output.confidence / 5;
        let bars: usize = if fifth >= 1 { fifth as usize } else { 1 };
        assert(bars as nat == bar_count(output.confidence));
        assert(*output == s[i as int].1);
        push_padded(&mut text, output.agent_name.as_str(), 22);
        push_str(&mut text, " ");
        push_repeat(&mut text, '#', bars);
        push_str(&mut text, " ");
        push_decimal(&mut text, output.confidence as u64);
        push_str(&mut text, "\n");
        proof {
            lemma_concat_map_step(s, f, i as int);
            assert(text@ =~= before + chart_line(s[i as int]));
        }
        i = i + 1;
    }
    proof {
        lemma_take_all(s);
    }
    let mut charts: NameMap<String> = NameMap::new();
    charts.insert(String::from_str("confidence"), text);
    charts
}

/// How one of the strongest contributors is named in the summary.
pub open spec fn contributor(e: (Seq<char>, AgentOutput)) -> Seq<char> {
    e.1.agent_name@ + " ("@ + decimal(e.1.confidence as nat) + ")"@
}

/// The first three outputs in key order, named, separated by commas, or
/// `none` where that is empty.
pub open spec fn top_contributors(s: Seq<(Seq<char>, AgentOutput)>) -> Seq<char> {
    let n = if s.len() < 3 { s.len() } else { 3 };
    let joined = join(s.take(n as int).map_values(|e: (Seq<char>, AgentOutput)| contributor(e)), ", "@);
    if joined.len() == 0 { "none"@ } else { joined }
}

/// The summary line of one failure.
pub open spec fn failure_line(f: crate::models::AgentFailure) -> Seq<char> {
    "- "@ + f.agent_name@ + ": "@ + f.error@ + "\n"@
}

/// A bulleted line.
pub open spec fn bullet(t: String) -> Seq<char> {
    "- "@ + t@ + "\n"@
}

/// The executive summary of a run.
pub open spec fn executive_summary_spec(r: SwarmResults, t: TrendAnalysis) -> Seq<char> {
    let failures = r.failed_agents@;
    let shown = if failures.len() < 5 { failures.len() } else { 5 };
    "## Executive summary\n\n- Query: "@ + r.query@ + "\n- Agents completed: "@ + decimal(
        r.agent_outputs.view().len(),
    ) + "\n- Agents failed: "@ + decimal(failures.len()) + "\n- Duration: "@ + decimal(
        r.duration_ms as nat,
    ) + " ms\n- Confidence score: "@ + decimal(average_confidence_spec(r.agent_outputs.view()))
        + "\n- Strongest contributors: "@ + top_contributors(r.agent_outputs.view()) + "\n"@ + (
    if failures.len() > 0 {
        "\n### Failures\n"@ + concat_map(
            failures.take(shown as int),
            |f: crate::models::AgentFailure| failure_line(f),
        )
    } else {
        Seq::<char>::empty()
    }) + (if t.delta_summary@.len() > 0 {
        "\n### Trend deltas\n"@ + concat_map(t.delta_summary@, |l: String| bullet(l))
    } else {
        Seq::<char>::empty()
    })
}

fn push_top_contributors(out: &mut String, results: &SwarmResults)
    ensures
        final(out)@ == old(out)@ + top_contributors(results.agent_outputs.view()),
{
    let ghost s = results.agent_outputs.view();
    let ghost g = |e: (Seq<char>, AgentOutput)| contributor(e);
    let n: usize = if results.agent_outputs.len() < 3 { results.agent_outputs.len() } else { 3 };
    let ghost parts = s.take(n as int).map_values(g);
    let mut joined = String::new();
    let mut i: usize = 0;
    while i < n
        invariant
            n <= s.len(),
            n <= 3,
            s == results.agent_outputs.view(),
            g == (|e: (Seq<char>, AgentOutput)| contributor(e)),
            parts == s.take(n as int).map_values(g),
            i <= n,
            joined@ == join(parts.take(i as int), ", "@),
        decreases n - i,
    {
        let output = results.agent_outputs.value_at(i);
        let ghost before = joined@;
        if i > 0 {
            push_str(&mut joined, ", ");
        }
        push_str(&mut joined, output.agent_name.as_str());
        push_str(&mut joined, " (");
        push_decimal(&mut joined, output.confidence as u64);
        push_str(&mut joined, ")");
        proof {
            crate::text::lemma_join_step(parts, ", "@, i as int);
            assert(parts[i as int] == contributor(s[i as int]));
            if i == 0 {
                assert(before =~= Seq::<char>::empty()) by {
                    assert(parts.take(0) =~= Seq::<Seq<char>>::empty());
                }
            }
            assert(joined@ =~= join(parts.take(i + 1), ", "@));
        }
        i = i + 1;
    }
    proof {
        lemma_take_all(parts);
    }
    if joined.as_str().is_empty() {
        push_str(out, "none");
    } else {
        push_str(out, joined.as_str());
    }
}

fn push_bullets(out: &mut String, lines: &Vec<String>)
    ensures
        final(out)@ == old(out)@ + concat_map(lines@, |l: String| bullet(l)),
{
    let ghost f = |l: String| bullet(l);
    let mut i: usize = 0;
    while i < lines.len()
        invariant
            i <= lines@.len(),
            f == (|l: String| bullet(l)),
            out@ == old(out)@ + concat_map(lines@.take(i as int), f),
        decreases lines@.len() - i,
    {
        let ghost before = out@;
        push_str(out, "- ");
        push_str(out, lines[i].as_str());
        push_str(out, "\n");
        proof {
            lemma_concat_map_step(lines@, f, i as int);
            assert(out@ =~= before + bullet(lines@[i as int]));
        }
        i = i + 1;
    }
    proof {
        lemma_take_all(lines@);
    }
}

/// The executive summary of a run: the query, the counts, the duration,
/// the confidence score, the three first contributors in key order, the
/// first five failures and the trend changes.
pub fn generate_executive_summary(results: &SwarmResults, trends: &TrendAnalysis) -> (summary: String)
    ensures
        summary@ == executive_summary_spec(*results, *trends),
{
    let avg = average_confidence(results);
    let mut out = String::from_str("## Executive summary\n\n- Query: ");
    push_str(&mut out, results.query.as_str());
    push_str(&mut out, "\n- Agents completed: ");
    push_decimal(&mut out, results.agent_outputs.len() as u64);
    push_str(&mut out, "\n- Agents failed: ");
    push_decimal(&mut out, results.failed_agents.len() as u64);
    push_str(&mut out, "\n- Duration: ");
    push_decimal(&mut out, results.duration_ms);
    push_str(&mut out, " ms\n- Confidence score: ");
    push_decimal(&mut out, avg as u64);
    push_str(&mut out, "\n- Strongest contributors: ");
    push_top_contributors(&mut out, results);
    push_str(&mut out, "\n");
    let ghost head = out@;
    if results.failed_agents.len() > 0 {
        push_str(&mut out, "\n### Failures\n");
        let ghost f = |x: crate::models::AgentFailure| failure_line(x);
        let ghost fs = results.failed_agents@;
        let ghost start = out@;
        let shown: usize = if results.failed_agents.len() < 5 { results.failed_agents.len() } else { 5 };
        let mut i: usize = 0;
        while i < shown
            invariant
                fs == results.failed_agents@,
                shown <= fs.len(),
                f == (|x: crate::models::AgentFailure| failure_line(x)),
                i <= shown,
                out@ == start + concat_map(fs.take(i as int), f),
            decreases shown - i,
        {
            let ghost before = out@;
            push_str(&mut out, "- ");
            push_str(&mut out, results.failed_agents[i].agent_name.as_str());
            push_str(&mut out, ": ");
            push_str(&mut out, results.failed_agents[i].error.as_str());
            push_str(&mut out, "\n");
            proof {
                lemma_concat_map_step(fs, f, i as int);
                assert(out@ =~= before + failure_line(fs[i as int]));
            }
            i = i + 1;
        }
        assert(fs.take(shown as int).take(shown as int) =~= fs.take(shown as int));
    }
    let ghost mid = out@;
    if trends.delta_summary.len() > 0 {
        push_str(&mut out, "\n### Trend deltas\n");
        push_bullets(&mut out, &trends.delta_summary);
    }
    assert(out@ =~= executive_summary_spec(*results, *trends));
    out
}


/// The report line of one trend.
pub open spec fn trend_line(e: (Seq<char>, crate::models::Trend)) -> Seq<char> {
    "- **"@ + e.0 + "** current "@ + e.1.current_value@ + ", change "@ + e.1.change_percent@ + "%\n"@
}

/// The report section of one agent's findings.
pub open spec fn finding_section(e: (Seq<char>, AgentOutput)) -> Seq<char> {
    "### "@ + e.1.agent_name@ + "\n\n"@ + e.1.content@ + "\n\n"@
}

/// The Markdown text of a report: title, summary, then the trends, the
/// action items and the agents' findings, each section only where it has
/// entries.
pub open spec fn markdown_spec(r: EnhancedReport) -> Seq<char> {
    "# "@ + r.title@ + "\n\n"@ + r.summary@ + "\n\n"@ + (if r.trends.trends.view().len() > 0 {
        "## Trends\n\n"@ + concat_map(r.trends.trends.view(), |e: (Seq<char>, crate::models::Trend)| trend_line(e)) + "\n"@
    } else {
        Seq::<char>::empty()
    }) + (if r.action_items@.len() > 0 {
        "## Action items\n\n"@ + concat_map(r.action_items@, |l: String| bullet(l)) + "\n"@
    } else {
        Seq::<char>::empty()
    }) + (if r.agent_outputs.view().len() > 0 {
        "## Agent findings\n\n"@
    } else {
        Seq::<char>::empty()
    }) + concat_map(r.agent_outputs.view(), |e: (Seq<char>, AgentOutput)| finding_section(e))
}

/// The HTML page of a report: its Markdown text, preformatted.
pub open spec fn html_spec(r: EnhancedReport) -> Seq<char> {
    "<html><body><pre>"@ + markdown_spec(r) + "</pre></body></html>"@
}

/// Whether a CSV writer with default settings must quote a field that holds
/// `c`: the delimiter, the quote and the two line-ending characters.
pub open spec fn csv_special(c: char) -> bool {
    c == ',' || c == '"' || c == '\r' || c == '\n'
}

/// One character of a quoted field: a quote is written twice.
pub open spec fn csv_escaped(c: char) -> Seq<char> {
    if c == '"' {
        seq!['"', '"']
    } else {
        seq![c]
    }
}

/// A field as a CSV writer with default settings writes it: in quotes, with
/// each quote doubled, where it holds a special character, else as it is.
pub open spec fn csv_field(f: Seq<char>) -> Seq<char> {
    if exists|i: int| 0 <= i < f.len() && csv_special(#[trigger] f[i]) {
        seq!['"'] + concat_map(f, |c: char| csv_escaped(c)) + seq!['"']
    } else {
        f
    }
}

/// The text that a CSV writer with default settings writes for one record:
/// the fields, separated by commas, then a line feed. A record that would
/// otherwise be empty (no field, or one empty field) is written as an empty
/// quoted field.
pub open spec fn csv_record(fields: Seq<Seq<char>>) -> Seq<char> {
    if fields.len() == 0 || (fields.len() == 1 && fields[0].len() == 0) {
        seq!['"', '"', '\n']
    } else {
        join(fields.map_values(|f: Seq<char>| csv_field(f)), ","@) + seq!['\n']
    }
}

/// Trusted: `csv::Writer::from_writer`, `Writer::write_record` and
/// `Writer::into_inner` on an in-memory buffer, for a single record, with
/// the writer's default settings (`QuoteStyle::Necessary`, quotes doubled,
/// `\n` as terminator). The contract states the text written as
/// `csv_record`. The special characters are ASCII, so the byte-level rules
/// of the writer and the character-level rules of `csv_record` agree on
/// UTF-8 text. The calls cannot fail on an in-memory buffer.
#[verifier::external_body]
fn csv_line(fields: &Vec<String>) -> (line: String)
    ensures
        line@ == csv_record(texts(fields@)),
{
    let mut writer = csv::Writer::from_writer(vec![]);
    writer.write_record(fields).unwrap();
    String::from_utf8(writer.into_inner().unwrap()).unwrap()
}

/// The CSV record of one agent.
pub open spec fn csv_row(e: (Seq<char>, AgentOutput)) -> Seq<char> {
    csv_record(seq![e.1.agent_name@, decimal(e.1.confidence as nat), decimal(e.1.recursive_depth as nat), e.1.content@])
}

/// The CSV text of a report: a header, then one record per agent in key
/// order.
pub open spec fn csv_spec(r: EnhancedReport) -> Seq<char> {
    csv_record(seq!["agent_name"@, "confidence"@, "depth"@, "content"@]) + concat_map(
        r.agent_outputs.view(),
        |e: (Seq<char>, AgentOutput)| csv_row(e),
    )
}

fn decimal_string(n: u64) -> (s: String)
    ensures
        s@ == decimal(n as nat),
{
    let mut s = String::new();
    push_decimal(&mut s, n);
    s
}

impl EnhancedReport {
    /// The report as Markdown.
    pub fn to_markdown(&self) -> (md: String)
        ensures
            md@ == markdown_spec(*self),
    {
        let mut out = String::from_str("# ");
        push_str(&mut out, self.title.as_str());
        push_str(&mut out, "\n\n");
        push_str(&mut out, self.summary.as_str());
        push_str(&mut out, "\n\n");
        let ghost s0 = out@;
        if !self.trends.trends.is_empty() {
            push_str(&mut out, "## Trends\n\n");
            let ghost ts = self.trends.trends.view();
            let ghost f = |e: (Seq<char>, crate::models::Trend)| trend_line(e);
            let ghost start = out@;
            let n = self.trends.trends.len();
            let mut i: usize = 0;
            while i < n
                invariant
                    ts == self.trends.trends.view(),
                    n == ts.len(),
                    i <= n,
                    f == (|e: (Seq<char>, crate::models::Trend)| trend_line(e)),
                    out@ == start + concat_map(ts.take(i as int), f),
                decreases n - i,
            {
                let ghost before = out@;
                let name = self.trends.trends.key_at(i);
                let trend = self.trends.trends.value_at(i);
                push_str(&mut out, "- **");
                push_str(&mut out, name.as_str());
                push_str(&mut out, "** current ");
                push_str(&mut out, trend.current_value.as_str());
                push_str(&mut out, ", change ");
                push_str(&mut out, trend.change_percent.as_str());
                push_str(&mut out, "%\n");
                proof {
                    lemma_concat_map_step(ts, f, i as int);
                    assert(out@ =~= before + trend_line(ts[i as int]));
                }
                i = i + 1;
            }
            proof {
                lemma_take_all(ts);
            }
            push_str(&mut out, "\n");
        }
        let ghost s1 = out@;
        if self.action_items.len() > 0 {
            push_str(&mut out, "## Action items\n\n");
            push_bullets(&mut out, &self.action_items);
            push_str(&mut out, "\n");
        }
        let ghost s2 = out@;
        if !self.agent_outputs.is_empty() {
            push_str(&mut out, "## Agent findings\n\n");
        }
        let ghost os = self.agent_outputs.view();
        let ghost g = |e: (Seq<char>, AgentOutput)| finding_section(e);
        let ghost start = out@;
        let n = self.agent_outputs.len();
        let mut i: usize = 0;
        while i < n
            invariant
                os == self.agent_outputs.view(),
                n == os.len(),
                i <= n,
                g == (|e: (Seq<char>, AgentOutput)| finding_section(e)),
                out@ == start + concat_map(os.take(i as int), g),
            decreases n - i,
        {
            let ghost before = out@;
            let output = self.agent_outputs.value_at(i);
            push_str(&mut out, "### ");
            push_str(&mut out, output.agent_name.as_str());
            push_str(&mut out, "\n\n");
            push_str(&mut out, output.content.as_str());
            push_str(&mut out, "\n\n");
            proof {
                lemma_concat_map_step(os, g, i as int);
                assert(out@ =~= before + finding_section(os[i as int]));
            }
            i = i + 1;
        }
        proof {
            lemma_take_all(os);
        }
        assert(out@ =~= markdown_spec(*self));
        out
    }

    /// The report as an HTML page that shows its Markdown text.
    pub fn to_html(&self) -> (html: String)
        ensures
            html@ == html_spec(*self),
    {
        let mut out = String::from_str("<html><body><pre>");
        let md = self.to_markdown();
        push_str(&mut out, md.as_str());
        push_str(&mut out, "</pre></body></html>");
        out
    }

    /// The agents of the report as CSV: name, confidence, depth, content.
    pub fn to_csv(&self) -> (csv: String)
        ensures
            csv@ == csv_spec(*self),
    {
        let header = vec![
            String::from_str("agent_name"),
            String::from_str("confidence"),
            String::from_str("depth"),
            String::from_str("content"),
        ];
        assert(texts(header@) =~= seq!["agent_name"@, "confidence"@, "depth"@, "content"@]);
        let mut out = csv_line(&header);
        let ghost os = self.agent_outputs.view();
        let ghost g = |e: (Seq<char>, AgentOutput)| csv_row(e);
        let ghost start = out@;
        let n = self.agent_outputs.len();
        let mut i: usize = 0;
        while i < n
            invariant
                os == self.agent_outputs.view(),
                n == os.len(),
                i <= n,
                g == (|e: (Seq<char>, AgentOutput)| csv_row(e)),
                out@ == start + concat_map(os.take(i as int), g),
            decreases n - i,
        {
            let ghost before = out@;
            let output = self.agent_outputs.value_at(i);
            let fields = vec![
                output.agent_name.clone(),
                decimal_string(output.confidence as u64),
                decimal_string(output.recursive_depth as u64),
                output.content.clone(),
            ];
            assert(texts(fields@) =~= seq![output.agent_name@, decimal(output.confidence as nat), decimal(output.recursive_depth as nat), output.content@]);
            let line = csv_line(&fields);
            push_str(&mut out, line.as_str());
            proof {
                lemma_concat_map_step(os, g, i as int);
                assert(out@ =~= before + csv_row(os[i as int]));
            }
            i = i + 1;
        }
        proof {
            lemma_take_all(os);
        }
        out
    }
}

/// The total confidence of `s` adds up over a split, is 0 for no output and
/// the output's own confidence for one.
pub proof fn law_confidence_total_sums(a: Seq<(Seq<char>, AgentOutput)>, b: Seq<(Seq<char>, AgentOutput)>)
    ensures
        confidence_total(a + b) == confidence_total(a) + confidence_total(b),
        confidence_total(Seq::<(Seq<char>, AgentOutput)>::empty()) == 0,
        b.len() == 1 ==> confidence_total(b) == b[0].1.confidence,
    decreases b.len(),
{
    if b.len() == 0 {
        assert(a + b =~= a);
    } else {
        law_confidence_total_sums(a, b.drop_last());
        assert((a + b).drop_last() =~= a + b.drop_last());
        assert((a + b).last() == b.last());
        if b.len() == 1 {
            assert(b.drop_last() =~= Seq::<(Seq<char>, AgentOutput)>::empty());
        }
    }
}

/// The confidence score is the mean of all the outputs' confidences,
/// rounded down: times the number of outputs it is at most their total,
/// and one more than it times that number exceeds the total. With no
/// output it is 0.
pub proof fn law_confidence_is_floor_mean(s: Seq<(Seq<char>, AgentOutput)>)
    ensures
        s.len() == 0 ==> average_confidence_spec(s) == 0,
        s.len() > 0 ==> average_confidence_spec(s) * s.len() <= confidence_total(s),
        s.len() > 0 ==> confidence_total(s) < (average_confidence_spec(s) + 1) * s.len(),
{
    if s.len() > 0 {
        let t = confidence_total(s) as int;
        let n = s.len() as int;
        let c = t / n;
        assert(c * n <= t && t < (c + 1) * n) by (nonlinear_arith)
            requires
                n > 0,
                c == t / n,
        ;
    }
}

/// The findings of the outputs of `s` in key order: for each, a heading
/// with the agent's name, then its content.
pub open spec fn agent_sections(s: Seq<(Seq<char>, AgentOutput)>) -> Seq<char>
    decreases s.len(),
{
    if s.len() == 0 {
        Seq::<char>::empty()
    } else {
        agent_sections(s.drop_last()) + "### "@ + s.last().1.agent_name@ + "\n\n"@ + s.last().1.content@ + "\n\n"@
    }
}

proof fn lemma_findings_are_sections(s: Seq<(Seq<char>, AgentOutput)>)
    ensures
        concat_map(s, |e: (Seq<char>, AgentOutput)| finding_section(e)) == agent_sections(s),
    decreases s.len(),
{
    if s.len() > 0 {
        lemma_findings_are_sections(s.drop_last());
        let e = s.last();
        assert(agent_sections(s) =~= agent_sections(s.drop_last()) + finding_section(e));
    }
}

/// The Markdown text of a report starts with its title and summary and
/// ends with the findings of every agent, in key order: a heading with the
/// agent's name and its content, for each output. Where there are outputs,
/// the findings follow the heading `## Agent findings`.
pub proof fn law_markdown_findings(r: EnhancedReport)
    ensures
        ("# "@ + r.title@ + "\n\n"@ + r.summary@ + "\n\n"@).is_prefix_of(markdown_spec(r)),
        agent_sections(r.agent_outputs.view()).len() <= markdown_spec(r).len(),
        markdown_spec(r).skip(markdown_spec(r).len() - agent_sections(r.agent_outputs.view()).len()) == agent_sections(
            r.agent_outputs.view(),
        ),
        r.agent_outputs.view().len() > 0 ==> ("## Agent findings\n\n"@ + agent_sections(r.agent_outputs.view())).is_suffix_of(
            markdown_spec(r),
        ),
{
    let v = r.agent_outputs.view();
    lemma_findings_are_sections(v);
    let head = "# "@ + r.title@ + "\n\n"@ + r.summary@ + "\n\n"@;
    let m = markdown_spec(r);
    let f = agent_sections(v);
    let mid = (if r.trends.trends.view().len() > 0 {
        "## Trends\n\n"@ + concat_map(r.trends.trends.view(), |e: (Seq<char>, crate::models::Trend)| trend_line(e)) + "\n"@
    } else {
        Seq::<char>::empty()
    }) + (if r.action_items@.len() > 0 {
        "## Action items\n\n"@ + concat_map(r.action_items@, |l: String| bullet(l)) + "\n"@
    } else {
        Seq::<char>::empty()
    });
    let fh = if v.len() > 0 {
        "## Agent findings\n\n"@
    } else {
        Seq::<char>::empty()
    };
    assert(m =~= head + (mid + fh + f));
    assert(m.take(head.len() as int) =~= head);
    assert(m.skip(m.len() - f.len()) =~= f);
    if v.len() > 0 {
        assert(m =~= (head + mid) + (fh + f));
        assert(m.skip(m.len() - (fh + f).len()) =~= fh + f);
    }
}

/// Whether some insight of some output of `s` names the action item `k`.
pub open spec fn names_action(s: Seq<(Seq<char>, AgentOutput)>, k: Seq<char>) -> bool {
    exists|i: int, j: int, m: int|
        0 <= i < s.len() && 0 <= j < s[i].1.insights@.len() && 0 <= m < s[i].1.insights@[j].action_items@.len()
            && (#[trigger] s[i].1.insights@[j].action_items@[m])@ == k
}

proof fn lemma_concat_contains<T>(a: Seq<T>, b: Seq<T>, k: T)
    ensures
        (a + b).contains(k) <==> (a.contains(k) || b.contains(k)),
{
    if (a + b).contains(k) {
        let i = choose|i: int| 0 <= i < (a + b).len() && (a + b)[i] == k;
        if i >= a.len() {
            assert(b[i - a.len()] == k);
        }
    }
    if a.contains(k) {
        let i = choose|i: int| 0 <= i < a.len() && a[i] == k;
        assert((a + b)[i] == k);
    }
    if b.contains(k) {
        let i = choose|i: int| 0 <= i < b.len() && b[i] == k;
        assert((a + b)[a.len() + i] == k);
    }
}

proof fn lemma_insight_actions_has(ins: Seq<crate::models::Insight>, k: Seq<char>)
    ensures
        insight_actions(ins).contains(k) <==> exists|j: int, m: int|
            0 <= j < ins.len() && 0 <= m < ins[j].action_items@.len() && (#[trigger] ins[j].action_items@[m])@ == k,
    decreases ins.len(),
{
    if ins.len() > 0 {
        let p = ins.drop_last();
        let l = ins.last();
        lemma_insight_actions_has(p, k);
        lemma_concat_contains(insight_actions(p), texts(l.action_items@), k);
        if texts(l.action_items@).contains(k) {
            let m = choose|m: int| 0 <= m < texts(l.action_items@).len() && texts(l.action_items@)[m] == k;
            assert(ins[ins.len() - 1].action_items@[m]@ == k);
        }
        if exists|j: int, m: int|
            0 <= j < ins.len() && 0 <= m < ins[j].action_items@.len() && (#[trigger] ins[j].action_items@[m])@ == k {
            let (j, m) = choose|j: int, m: int|
                0 <= j < ins.len() && 0 <= m < ins[j].action_items@.len() && (#[trigger] ins[j].action_items@[m])@ == k;
            if j < p.len() {
                assert(p[j] == ins[j]);
                assert(p[j].action_items@[m]@ == k);
            } else {
                assert(texts(l.action_items@)[m] == k);
            }
        }
    }
}

proof fn lemma_all_actions_has(s: Seq<(Seq<char>, AgentOutput)>, k: Seq<char>)
    ensures
        all_actions(s).contains(k) <==> names_action(s, k),
    decreases s.len(),
{
    if s.len() > 0 {
        let p = s.drop_last();
        let ins = s.last().1.insights@;
        lemma_all_actions_has(p, k);
        lemma_insight_actions_has(ins, k);
        lemma_concat_contains(all_actions(p), insight_actions(ins), k);
        if names_action(p, k) {
            let (i, j, m) = choose|i: int, j: int, m: int|
                0 <= i < p.len() && 0 <= j < p[i].1.insights@.len() && 0 <= m < p[i].1.insights@[j].action_items@.len()
                    && (#[trigger] p[i].1.insights@[j].action_items@[m])@ == k;
            assert(s[i] == p[i]);
            assert(s[i].1.insights@[j].action_items@[m]@ == k);
        }
        if insight_actions(ins).contains(k) {
            let (j, m) = choose|j: int, m: int|
                0 <= j < ins.len() && 0 <= m < ins[j].action_items@.len() && (#[trigger] ins[j].action_items@[m])@ == k;
            assert(s[s.len() - 1].1.insights@[j].action_items@[m]@ == k);
        }
        if names_action(s, k) {
            let (i, j, m) = choose|i: int, j: int, m: int|
                0 <= i < s.len() && 0 <= j < s[i].1.insights@.len() && 0 <= m < s[i].1.insights@[j].action_items@.len()
                    && (#[trigger] s[i].1.insights@[j].action_items@[m])@ == k;
            if i < p.len() {
                assert(p[i] == s[i]);
                assert(p[i].1.insights@[j].action_items@[m]@ == k);
            } else {
                assert(ins[j].action_items@[m]@ == k);
            }
        }
    }
}

/// Every action item of every insight of every output is listed, and every
/// item listed is an action item of some insight of some output.
pub proof fn law_action_items_cover(s: Seq<(Seq<char>, AgentOutput)>)
    ensures
        forall|i: int, j: int, m: int|
            0 <= i < s.len() && 0 <= j < s[i].1.insights@.len() && 0 <= m < s[i].1.insights@[j].action_items@.len()
                ==> action_items_spec(s).contains((#[trigger] s[i].1.insights@[j].action_items@[m])@),
        forall|k: Seq<char>| #[trigger] action_items_spec(s).contains(k) ==> names_action(s, k),
{
    assert forall|i: int, j: int, m: int|
        0 <= i < s.len() && 0 <= j < s[i].1.insights@.len() && 0 <= m < s[i].1.insights@[j].action_items@.len()
            implies action_items_spec(s).contains((#[trigger] s[i].1.insights@[j].action_items@[m])@) by {
        let k = s[i].1.insights@[j].action_items@[m]@;
        assert(names_action(s, k));
        lemma_all_actions_has(s, k);
        law_action_items_sorted_unique(s, k);
    }
    assert forall|k: Seq<char>| #[trigger] action_items_spec(s).contains(k) implies names_action(s, k) by {
        lemma_all_actions_has(s, k);
        law_action_items_sorted_unique(s, k);
    }
}

/// One line per trend, in key order: the trend's name in bold, its current
/// value and its change.
pub open spec fn trend_lines(s: Seq<(Seq<char>, crate::models::Trend)>) -> Seq<char>
    decreases s.len(),
{
    if s.len() == 0 {
        Seq::<char>::empty()
    } else {
        trend_lines(s.drop_last()) + "- **"@ + s.last().0 + "** current "@ + s.last().1.current_value@ + ", change "@
            + s.last().1.change_percent@ + "%\n"@
    }
}

/// One bulleted line per text, in order.
pub open spec fn bullet_lines(v: Seq<String>) -> Seq<char>
    decreases v.len(),
{
    if v.len() == 0 {
        Seq::<char>::empty()
    } else {
        bullet_lines(v.drop_last()) + "- "@ + v.last()@ + "\n"@
    }
}

proof fn lemma_trend_lines(s: Seq<(Seq<char>, crate::models::Trend)>)
    ensures
        concat_map(s, |e: (Seq<char>, crate::models::Trend)| trend_line(e)) == trend_lines(s),
    decreases s.len(),
{
    if s.len() > 0 {
        lemma_trend_lines(s.drop_last());
        assert(trend_lines(s) =~= trend_lines(s.drop_last()) + trend_line(s.last()));
    }
}

proof fn lemma_bullet_lines(v: Seq<String>)
    ensures
        concat_map(v, |l: String| bullet(l)) == bullet_lines(v),
    decreases v.len(),
{
    if v.len() > 0 {
        lemma_bullet_lines(v.drop_last());
        assert(bullet_lines(v) =~= bullet_lines(v.drop_last()) + bullet(v.last()));
    }
}

/// The Markdown text of a report, part by part: the title and summary; the
/// trends, one line each, where there are any; the action items, one
/// bullet each, where there are any; then the findings of every agent in
/// key order, under their heading where there are any.
pub proof fn law_markdown_sections(r: EnhancedReport)
    ensures
        markdown_spec(r) == "# "@ + r.title@ + "\n\n"@ + r.summary@ + "\n\n"@ + (if r.trends.trends.view().len() > 0 {
            "## Trends\n\n"@ + trend_lines(r.trends.trends.view()) + "\n"@
        } else {
            Seq::<char>::empty()
        }) + (if r.action_items@.len() > 0 {
            "## Action items\n\n"@ + bullet_lines(r.action_items@) + "\n"@
        } else {
            Seq::<char>::empty()
        }) + (if r.agent_outputs.view().len() > 0 {
            "## Agent findings\n\n"@
        } else {
            Seq::<char>::empty()
        }) + agent_sections(r.agent_outputs.view()),
{
    lemma_trend_lines(r.trends.trends.view());
    lemma_bullet_lines(r.action_items@);
    lemma_findings_are_sections(r.agent_outputs.view());
}

/// The HTML page of a report is its Markdown text, preformatted, in a page
/// of its own.
pub proof fn law_html_wraps_markdown(r: EnhancedReport)
    ensures
        html_spec(r) == "<html><body><pre>"@ + markdown_spec(r) + "</pre></body></html>"@,
{
}

/// One CSV record per output, in key order: the agent's name, its
/// confidence, its depth and its content.
pub open spec fn csv_rows(s: Seq<(Seq<char>, AgentOutput)>) -> Seq<char>
    decreases s.len(),
{
    if s.len() == 0 {
        Seq::<char>::empty()
    } else {
        csv_rows(s.drop_last()) + csv_record(
            seq![s.last().1.agent_name@, decimal(s.last().1.confidence as nat), decimal(s.last().1.recursive_depth as nat), s.last().1.content@],
        )
    }
}

proof fn lemma_csv_rows(s: Seq<(Seq<char>, AgentOutput)>)
    ensures
        concat_map(s, |e: (Seq<char>, AgentOutput)| csv_row(e)) == csv_rows(s),
    decreases s.len(),
{
    if s.len() > 0 {
        lemma_csv_rows(s.drop_last());
        assert(csv_rows(s) =~= csv_rows(s.drop_last()) + csv_row(s.last()));
    }
}

/// The CSV text of a report is a header record (`agent_name`, `confidence`,
/// `depth`, `content`) followed by one record for every output, in key
/// order.
pub proof fn law_csv_rows(r: EnhancedReport)
    ensures
        csv_spec(r) == csv_record(seq!["agent_name"@, "confidence"@, "depth"@, "content"@]) + csv_rows(r.agent_outputs.view()),
{
    lemma_csv_rows(r.agent_outputs.view());
}

/// A field without a comma, quote or line break is written as it is; a
/// record of several fields is its fields joined by commas, then a line
/// feed.
pub proof fn law_csv_plain_fields(f: Seq<char>)
    ensures
        (forall|i: int| 0 <= i < f.len() ==> f[i] != ',' && f[i] != '"' && f[i] != '\r' && f[i] != '\n') ==> csv_field(f) == f,
        (exists|i: int| 0 <= i < f.len() && f[i] == ',') ==> csv_field(f).len() >= 2 && csv_field(f)[0] == '"'
            && csv_field(f).last() == '"',
{
}

/// One chart line per output, in key order: the name padded to 22
/// characters, a bar of one `#` per five points of confidence (at least
/// one), and the confidence.
pub open spec fn chart_rows(s: Seq<(Seq<char>, AgentOutput)>) -> Seq<char>
    decreases s.len(),
{
    if s.len() == 0 {
        Seq::<char>::empty()
    } else {
        chart_rows(s.drop_last()) + pad_right(s.last().1.agent_name@, 22) + " "@ + repeat(
            '#',
            if s.last().1.confidence >= 5 { (s.last().1.confidence / 5) as nat } else { 1 },
        ) + " "@ + decimal(s.last().1.confidence as nat) + "\n"@
    }
}

proof fn lemma_chart_rows(s: Seq<(Seq<char>, AgentOutput)>)
    ensures
        concat_map(s, |e: (Seq<char>, AgentOutput)| chart_line(e)) == chart_rows(s),
    decreases s.len(),
{
    if s.len() > 0 {
        lemma_chart_rows(s.drop_last());
        assert(chart_rows(s) =~= chart_rows(s.drop_last()) + chart_line(s.last()));
    }
}

/// The confidence chart has a title and then a line for every output, in
/// key order.
pub proof fn law_chart_rows(s: Seq<(Seq<char>, AgentOutput)>)
    ensures
        confidence_chart(s) == "Confidence by agent\n\n"@ + chart_rows(s),
{
    lemma_chart_rows(s);
}

/// The outputs of `s` named with their confidence in brackets, separated
/// by commas.
pub open spec fn named_outputs(s: Seq<(Seq<char>, AgentOutput)>) -> Seq<char>
    decreases s.len(),
{
    if s.len() == 0 {
        Seq::<char>::empty()
    } else if s.len() == 1 {
        s[0].1.agent_name@ + " ("@ + decimal(s[0].1.confidence as nat) + ")"@
    } else {
        named_outputs(s.drop_last()) + ", "@ + s.last().1.agent_name@ + " ("@ + decimal(s.last().1.confidence as nat) + ")"@
    }
}

proof fn lemma_named_outputs(t: Seq<(Seq<char>, AgentOutput)>)
    ensures
        join(t.map_values(|e: (Seq<char>, AgentOutput)| contributor(e)), ", "@) == named_outputs(t),
        t.len() > 0 ==> named_outputs(t).len() > 0,
    decreases t.len(),
{
    let parts = t.map_values(|e: (Seq<char>, AgentOutput)| contributor(e));
    if t.len() == 1 {
        assert(parts[0] == contributor(t[0]));
    } else if t.len() > 1 {
        lemma_named_outputs(t.drop_last());
        assert(parts.drop_last() =~= t.drop_last().map_values(|e: (Seq<char>, AgentOutput)| contributor(e)));
        assert(parts.last() == contributor(t.last()));
        assert(named_outputs(t) =~= named_outputs(t.drop_last()) + ", "@ + contributor(t.last()));
    }
}

/// One line per failure, in order: the agent's name and the error.
pub open spec fn failure_lines(v: Seq<crate::models::AgentFailure>) -> Seq<char>
    decreases v.len(),
{
    if v.len() == 0 {
        Seq::<char>::empty()
    } else {
        failure_lines(v.drop_last()) + "- "@ + v.last().agent_name@ + ": "@ + v.last().error@ + "\n"@
    }
}

proof fn lemma_failure_lines(v: Seq<crate::models::AgentFailure>)
    ensures
        concat_map(v, |f: crate::models::AgentFailure| failure_line(f)) == failure_lines(v),
    decreases v.len(),
{
    if v.len() > 0 {
        lemma_failure_lines(v.drop_last());
        assert(failure_lines(v) =~= failure_lines(v.drop_last()) + failure_line(v.last()));
    }
}

/// The strongest contributors are the first three outputs in key order
/// (all of them where there are fewer), each named with its confidence,
/// separated by commas; `none` where there is no output.
pub proof fn law_top_contributors(s: Seq<(Seq<char>, AgentOutput)>)
    ensures
        top_contributors(s) == if s.len() == 0 {
            "none"@
        } else {
            named_outputs(s.take(if s.len() < 3 { s.len() as int } else { 3 }))
        },
{
    let n: int = if s.len() < 3 { s.len() as int } else { 3 };
    lemma_named_outputs(s.take(n));
    if s.len() == 0 {
        assert(s.take(n).len() == 0);
    }
}

/// The executive summary, line by line: the query; how many agents
/// completed and failed; the duration; the confidence score; the strongest
/// contributors; then the first five failures where there are any, and
/// every trend change line where there are any.
pub proof fn law_executive_summary_lines(r: SwarmResults, t: TrendAnalysis)
    ensures
        executive_summary_spec(r, t) == "## Executive summary\n\n- Query: "@ + r.query@ + "\n- Agents completed: "@ + decimal(
            r.agent_outputs.view().len(),
        ) + "\n- Agents failed: "@ + decimal(r.failed_agents@.len()) + "\n- Duration: "@ + decimal(r.duration_ms as nat)
            + " ms\n- Confidence score: "@ + decimal(average_confidence_spec(r.agent_outputs.view()))
            + "\n- Strongest contributors: "@ + (if r.agent_outputs.view().len() == 0 {
            "none"@
        } else {
            named_outputs(
                r.agent_outputs.view().take(if r.agent_outputs.view().len() < 3 { r.agent_outputs.view().len() as int } else { 3 }),
            )
        }) + "\n"@ + (if r.failed_agents@.len() > 0 {
            "\n### Failures\n"@ + failure_lines(
                r.failed_agents@.take(if r.failed_agents@.len() < 5 { r.failed_agents@.len() as int } else { 5 }),
            )
        } else {
            Seq::<char>::empty()
        }) + (if t.delta_summary@.len() > 0 {
            "\n### Trend deltas\n"@ + bullet_lines(t.delta_summary@)
        } else {
            Seq::<char>::empty()
        }),
{
    law_top_contributors(r.agent_outputs.view());
    let fv = r.failed_agents@;
    lemma_failure_lines(fv.take(if fv.len() < 5 { fv.len() as int } else { 5 }));
    lemma_bullet_lines(t.delta_summary@);
}

} // verus!
