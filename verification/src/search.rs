//! The decisions of the search and generation clients: when a live call is
//! made, what stands in for it, and how the texts they send and keep are
//! made.

use vstd::prelude::*;
use crate::config::ModelBackend;
use crate::models::SearchResult;
use crate::text::{
    ascii_lower, chars_blank, chars_contain, chars_of, chars_occur_at, contains, is_blank, join,
    lower_char, lower_char_of, lower_chars, push_str, starts_with, trim,
    trim_chars, string_from_chars,
};

verus! {

/// Whether a key is a placeholder rather than a real key: blank, `test`,
/// starting with `test-`, or holding `dummy` or `example`, ignoring
/// surrounding white space and ASCII case.
pub open spec fn is_test_key_spec(value: Seq<char>) -> bool {
    let lowered = ascii_lower(trim(value));
    ||| lowered.len() == 0
    ||| lowered == "test"@
    ||| starts_with(lowered, "test-"@)
    ||| contains(lowered, "dummy"@)
    ||| contains(lowered, "example"@)
}

/// Whether a key is a placeholder rather than a real key.
pub fn is_test_key(value: &str) -> (b: bool)
    ensures
        b == is_test_key_spec(value@),
{
    let lowered = lower_chars(&trim_chars(&chars_of(value)));
    lowered.len() == 0 || crate::text::chars_equal(&lowered, &chars_of("test")) || chars_occur_at(
        &lowered,
        &chars_of("test-"),
        0,
    ) || chars_contain(&lowered, &chars_of("dummy")) || chars_contain(&lowered, &chars_of("example"))
}

/// Whether `c` is an ASCII letter or digit.
pub open spec fn is_ascii_alnum(c: char) -> bool {
    ('a' <= c <= 'z') || ('A' <= c <= 'Z') || ('0' <= c <= '9')
}

/// An ASCII letter or digit in small letters; any other character a dash.
pub open spec fn slug_char(c: char) -> char {
    if is_ascii_alnum(c) { lower_char(c) } else { '-' }
}

/// The maximal runs of characters other than `-` in `m`, in order.
pub open spec fn segments(m: Seq<char>) -> Seq<Seq<char>>
    decreases m.len(),
{
    if m.len() == 0 {
        Seq::<Seq<char>>::empty()
    } else {
        let segs = segments(m.drop_last());
        let c = m.last();
        if c == '-' {
            segs
        } else if m.len() > 1 && m[m.len() - 2] != '-' && segs.len() > 0 {
            segs.drop_last().push(segs.last().push(c))
        } else {
            segs.push(seq![c])
        }
    }
}

/// The slug of a text: ASCII letters and digits in small letters, every
/// other run of characters a single dash, with no dash at either end.
pub open spec fn slugify_spec(input: Seq<char>) -> Seq<char> {
    join(segments(input.map_values(|c: char| slug_char(c))), "-"@)
}

/// The slug of a text, as used in addresses.
pub fn slugify(input: &str) -> (slug: String)
    ensures
        slug@ == slugify_spec(input@),
{
    let cs = chars_of(input);
    let ghost m = input@.map_values(|c: char| slug_char(c));
    let mut out: Vec<char> = Vec::new();
    let mut pending = false;
    let mut i: usize = 0;
    while i < cs.len()
        invariant
            cs@ == input@,
            m == input@.map_values(|c: char| slug_char(c)),
            i <= cs.len(),
            out@ == join(segments(m.take(i as int)), "-"@),
            pending == (segments(m.take(i as int)).len() > 0 && m.take(i as int).last() == '-'),
            i > 0 && m[i - 1] != '-' ==> segments(m.take(i as int)).len() > 0,
        decreases cs.len() - i,
    {
        let c = cs[i];
        let alnum = ('a' <= c && c <= 'z') || ('A' <= c && c <= 'Z') || ('0' <= c && c <= '9');
        let mc = if alnum { lower_char_of(c) } else { '-' };
        let ghost pre = m.take(i as int);
        let ghost next = m.take(i + 1);
        let ghost segs = segments(pre);
        assert(next.drop_last() =~= pre);
        assert(next.last() == mc);
        assert(mc == '-' <==> !alnum) by {
            if alnum {
                assert(lower_char(c) != '-');
            }
        }
        if mc == '-' {
            pending = out.len() > 0 || pending;
            proof {
                if out@.len() > 0 {
                    assert(segs.len() > 0) by {
                        if segs.len() == 0 {
                            assert(join(segs, "-"@) =~= Seq::<char>::empty());
                        }
                    }
                }
                if segs.len() > 0 && !pending {
                    assert(join(segs, "-"@).len() > 0) by {
                        lemma_join_nonempty(segs);
                    }
                }
            }
        } else {
            let ghost before = out@;
            if pending {
                out.push('-');
                out.push(mc);
                proof {
                    assert(segments(next) == segs.push(seq![mc]));
                    lemma_join_push(segs, seq![mc]);
                    reveal_strlit("-");
                    assert(out@ =~= before + "-"@ + seq![mc]);
                }
            } else {
                out.push(mc);
                proof {
                    if i > 0 && m[i - 1] != '-' {
                        assert(pre.last() == m[i - 1]);
                        assert(segments(next) == segs.drop_last().push(segs.last().push(mc)));
                        lemma_join_extend(segs, mc);
                    } else {
                        assert(segs.len() == 0) by {
                            if segs.len() > 0 && i > 0 {
                                assert(pre.last() == m[i - 1]);
                            }
                            if i == 0 {
                                assert(pre.len() == 0);
                            }
                        }
                        assert(segments(next) == segs.push(seq![mc]));
                        assert(segs.push(seq![mc]) =~= seq![seq![mc]]);
                        assert(out@ =~= seq![mc]) by {
                            assert(before =~= Seq::<char>::empty());
                        }
                    }
                }
            }
            pending = false;
        }
        i = i + 1;
    }
    assert(m.take(cs.len() as int) =~= m);
    string_from_chars(&out)
}

/// Whether `c` may stand in a slug: a small ASCII letter, a digit or `-`.
pub open spec fn slug_alphabet(c: char) -> bool {
    ('a' <= c <= 'z') || ('0' <= c <= '9') || c == '-'
}

/// Whether `t` has the shape of a slug: small letters, digits and dashes
/// only, no dash at either end and no two dashes in a row.
pub open spec fn slug_shaped(t: Seq<char>) -> bool {
    &&& forall|i: int| 0 <= i < t.len() ==> slug_alphabet(#[trigger] t[i])
    &&& t.len() > 0 ==> t[0] != '-' && t[t.len() - 1] != '-'
    &&& forall|i: int| 0 <= i < t.len() - 1 ==> !(#[trigger] t[i] == '-' && t[i + 1] == '-')
}

/// Whether `s` is a nonempty run of small letters and digits.
pub open spec fn word(s: Seq<char>) -> bool {
    s.len() > 0 && forall|i: int| 0 <= i < s.len() ==> slug_alphabet(#[trigger] s[i]) && s[i] != '-'
}

proof fn lemma_slug_char_alphabet(c: char)
    ensures
        slug_alphabet(slug_char(c)),
{
}

proof fn lemma_segments_words(m: Seq<char>)
    requires
        forall|i: int| 0 <= i < m.len() ==> slug_alphabet(#[trigger] m[i]),
    ensures
        forall|k: int| 0 <= k < segments(m).len() ==> word(#[trigger] segments(m)[k]),
    decreases m.len(),
{
    if m.len() > 0 {
        let p = m.drop_last();
        assert forall|i: int| 0 <= i < p.len() implies slug_alphabet(#[trigger] p[i]) by {
            assert(p[i] == m[i]);
        }
        lemma_segments_words(p);
        let segs = segments(p);
        let c = m.last();
        assert(slug_alphabet(c));
        if c != '-' {
            if m.len() > 1 && m[m.len() - 2] != '-' && segs.len() > 0 {
                let r = segs.drop_last().push(segs.last().push(c));
                assert forall|k: int| 0 <= k < r.len() implies word(#[trigger] r[k]) by {
                    if k < segs.len() - 1 {
                        assert(r[k] == segs[k]);
                    } else {
                        let w = segs.last().push(c);
                        assert(word(segs[segs.len() - 1]));
                        assert forall|i: int| 0 <= i < w.len() implies slug_alphabet(#[trigger] w[i]) && w[i] != '-' by {
                            if i < w.len() - 1 {
                                assert(w[i] == segs[segs.len() - 1][i]);
                            }
                        }
                    }
                }
            } else {
                let r = segs.push(seq![c]);
                assert forall|k: int| 0 <= k < r.len() implies word(#[trigger] r[k]) by {
                    if k < segs.len() {
                        assert(r[k] == segs[k]);
                    } else {
                        assert(r[k] == seq![c]);
                    }
                }
            }
        }
    }
}

proof fn lemma_join_words_shaped(segs: Seq<Seq<char>>)
    requires
        forall|k: int| 0 <= k < segs.len() ==> word(#[trigger] segs[k]),
    ensures
        slug_shaped(join(segs, "-"@)),
        segs.len() > 0 ==> join(segs, "-"@).len() > 0,
    decreases segs.len(),
{
    reveal_strlit("-");
    if segs.len() == 1 {
        assert(word(segs[0]));
    } else if segs.len() > 1 {
        let init = segs.drop_last();
        assert forall|k: int| 0 <= k < init.len() implies word(#[trigger] init[k]) by {
            assert(init[k] == segs[k]);
        }
        lemma_join_words_shaped(init);
        let j = join(init, "-"@);
        let l = segs.last();
        assert(word(segs[segs.len() - 1]));
        let t = join(segs, "-"@);
        assert(t == j + "-"@ + l);
        assert(t =~= j.push('-') + l);
        let n = j.len() as int;
        assert forall|i: int| 0 <= i < t.len() implies slug_alphabet(#[trigger] t[i]) by {
            if i < n {
                assert(t[i] == j[i]);
            } else if i > n {
                assert(t[i] == l[i - n - 1]);
            }
        }
        assert(t[0] == j[0]);
        assert(t[t.len() - 1] == l[l.len() - 1]);
        assert forall|i: int| 0 <= i < t.len() - 1 implies !(#[trigger] t[i] == '-' && t[i + 1] == '-') by {
            if i < n - 1 {
                assert(t[i] == j[i] && t[i + 1] == j[i + 1]);
            } else if i == n - 1 {
                assert(t[i] == j[n - 1]);
            } else if i == n {
                assert(t[i + 1] == l[0]);
            } else {
                assert(t[i] == l[i - n - 1]);
            }
        }
    }
}

/// Every slug has the shape of a slug: small letters, digits and single
/// dashes between them, with no dash at either end.
pub proof fn law_slug_shape(input: Seq<char>)
    ensures
        slug_shaped(slugify_spec(input)),
{
    let m = input.map_values(|c: char| slug_char(c));
    assert forall|i: int| 0 <= i < m.len() implies slug_alphabet(#[trigger] m[i]) by {
        lemma_slug_char_alphabet(input[i]);
    }
    lemma_segments_words(m);
    lemma_join_words_shaped(segments(m));
}

/// `t` without its dashes.
pub open spec fn no_dashes(t: Seq<char>) -> Seq<char>
    decreases t.len(),
{
    if t.len() == 0 {
        t
    } else {
        no_dashes(t.drop_last()) + if t.last() == '-' { Seq::<char>::empty() } else { seq![t.last()] }
    }
}

/// The ASCII letters and digits of `s`, in order, in small letters.
pub open spec fn alnum_lowered(s: Seq<char>) -> Seq<char>
    decreases s.len(),
{
    if s.len() == 0 {
        s
    } else {
        alnum_lowered(s.drop_last()) + if is_ascii_alnum(s.last()) { seq![lower_char(s.last())] } else { Seq::<char>::empty() }
    }
}

/// The parts one after another.
pub open spec fn flatten(parts: Seq<Seq<char>>) -> Seq<char>
    decreases parts.len(),
{
    if parts.len() == 0 {
        Seq::<char>::empty()
    } else {
        flatten(parts.drop_last()) + parts.last()
    }
}

proof fn lemma_no_dashes_concat(a: Seq<char>, b: Seq<char>)
    ensures
        no_dashes(a + b) == no_dashes(a) + no_dashes(b),
    decreases b.len(),
{
    if b.len() == 0 {
        assert(a + b =~= a);
        assert(no_dashes(a) + no_dashes(b) =~= no_dashes(a));
    } else {
        lemma_no_dashes_concat(a, b.drop_last());
        assert((a + b).drop_last() =~= a + b.drop_last());
        assert((a + b).last() == b.last());
        let tail = if b.last() == '-' { Seq::<char>::empty() } else { seq![b.last()] };
        assert(no_dashes(a) + no_dashes(b.drop_last()) + tail =~= no_dashes(a) + (no_dashes(b.drop_last()) + tail));
    }
}

proof fn lemma_no_dashes_plain(w: Seq<char>)
    requires
        forall|i: int| 0 <= i < w.len() ==> #[trigger] w[i] != '-',
    ensures
        no_dashes(w) == w,
    decreases w.len(),
{
    if w.len() > 0 {
        let p = w.drop_last();
        assert forall|i: int| 0 <= i < p.len() implies #[trigger] p[i] != '-' by {
            assert(p[i] == w[i]);
        }
        lemma_no_dashes_plain(p);
        assert(w[w.len() - 1] != '-');
        assert(p + seq![w.last()] =~= w);
    }
}

proof fn lemma_no_dashes_join(segs: Seq<Seq<char>>)
    requires
        forall|k: int| 0 <= k < segs.len() ==> word(#[trigger] segs[k]),
    ensures
        no_dashes(join(segs, "-"@)) == flatten(segs),
    decreases segs.len(),
{
    reveal_strlit("-");
    if segs.len() == 0 {
    } else {
        let init = segs.drop_last();
        let l = segs.last();
        assert(word(segs[segs.len() - 1]));
        assert forall|i: int| 0 <= i < l.len() implies #[trigger] l[i] != '-' by {}
        lemma_no_dashes_plain(l);
        if segs.len() == 1 {
            assert(init =~= Seq::<Seq<char>>::empty());
            assert(flatten(init) =~= Seq::<char>::empty());
            assert(flatten(segs) == flatten(init) + l);
            assert(flatten(segs) =~= l);
            assert(join(segs, "-"@) == segs[0]);
        } else {
            assert forall|k: int| 0 <= k < init.len() implies word(#[trigger] init[k]) by {
                assert(init[k] == segs[k]);
            }
            lemma_no_dashes_join(init);
            let j = join(init, "-"@);
            lemma_no_dashes_concat(j + "-"@, l);
            lemma_no_dashes_concat(j, "-"@);
            assert(no_dashes("-"@) =~= Seq::<char>::empty()) by {
                let d = "-"@;
                assert(d.len() == 1 && d[0] == '-');
                assert(d.drop_last() =~= Seq::<char>::empty());
                assert(no_dashes(d.drop_last()) =~= Seq::<char>::empty());
                assert(d.last() == '-');
            }
            assert(no_dashes(j) + no_dashes("-"@) + no_dashes(l) =~= flatten(init) + l);
        }
    }
}

proof fn lemma_flatten_segments(m: Seq<char>)
    ensures
        flatten(segments(m)) == no_dashes(m),
    decreases m.len(),
{
    if m.len() > 0 {
        let p = m.drop_last();
        lemma_flatten_segments(p);
        let segs = segments(p);
        let c = m.last();
        if c == '-' {
            assert(no_dashes(m) =~= no_dashes(p));
        } else if m.len() > 1 && m[m.len() - 2] != '-' && segs.len() > 0 {
            let r = segs.drop_last().push(segs.last().push(c));
            assert(r.drop_last() =~= segs.drop_last());
            assert(flatten(segs) == flatten(segs.drop_last()) + segs.last());
            assert(flatten(r) =~= flatten(segs) + seq![c]);
        } else {
            assert(segs.push(seq![c]).drop_last() =~= segs);
        }
    }
}

proof fn lemma_no_dashes_slug_chars(s: Seq<char>)
    ensures
        no_dashes(s.map_values(|c: char| slug_char(c))) == alnum_lowered(s),
    decreases s.len(),
{
    if s.len() > 0 {
        lemma_no_dashes_slug_chars(s.drop_last());
        let m = s.map_values(|c: char| slug_char(c));
        assert(m.drop_last() =~= s.drop_last().map_values(|c: char| slug_char(c)));
        let c = s.last();
        assert(m.last() == slug_char(c));
        if is_ascii_alnum(c) {
            assert(lower_char(c) != '-');
        }
    }
}

/// A slug keeps the ASCII letters and digits of its text, in order and in
/// small letters, and nothing else but dashes.
pub proof fn law_slug_keeps_alnum(input: Seq<char>)
    ensures
        no_dashes(slugify_spec(input)) == alnum_lowered(input),
{
    let m = input.map_values(|c: char| slug_char(c));
    assert forall|i: int| 0 <= i < m.len() implies slug_alphabet(#[trigger] m[i]) by {
        lemma_slug_char_alphabet(input[i]);
    }
    lemma_segments_words(m);
    lemma_no_dashes_join(segments(m));
    lemma_flatten_segments(m);
    lemma_no_dashes_slug_chars(input);
}

/// `m` without a dash at its end.
pub open spec fn strip_end_dash(m: Seq<char>) -> Seq<char> {
    if m.len() > 0 && m.last() == '-' { m.drop_last() } else { m }
}

/// Whether `m` has no dash at its start and no two dashes in a row.
pub open spec fn dash_prefix_ok(m: Seq<char>) -> bool {
    &&& m.len() > 0 ==> m[0] != '-'
    &&& forall|i: int| 0 <= i < m.len() - 1 ==> !(#[trigger] m[i] == '-' && m[i + 1] == '-')
}

proof fn lemma_segments_exist(m: Seq<char>)
    requires
        m.len() > 0,
        m[0] != '-',
    ensures
        segments(m).len() > 0,
    decreases m.len(),
{
    if m.last() == '-' {
        let p = m.drop_last();
        assert(p[0] == m[0]);
        lemma_segments_exist(p);
    }
}

proof fn lemma_join_segments_of_shaped(m: Seq<char>)
    requires
        dash_prefix_ok(m),
    ensures
        join(segments(m), "-"@) == strip_end_dash(m),
    decreases m.len(),
{
    reveal_strlit("-");
    if m.len() > 0 {
        let p = m.drop_last();
        assert(dash_prefix_ok(p)) by {
            assert forall|i: int| 0 <= i < p.len() - 1 implies !(#[trigger] p[i] == '-' && p[i + 1] == '-') by {
                assert(p[i] == m[i] && p[i + 1] == m[i + 1]);
            }
            if p.len() > 0 {
                assert(p[0] == m[0]);
            }
        }
        lemma_join_segments_of_shaped(p);
        let segs = segments(p);
        let c = m.last();
        assert(p.push(c) =~= m);
        if m.len() == 1 {
            assert(p =~= Seq::<char>::empty());
            assert(c == m[0]);
            assert(segments(m) =~= seq![seq![c]]);
        } else {
            assert(p[0] == m[0]);
            lemma_segments_exist(p);
            assert(p.last() == m[m.len() - 2]);
            if c == '-' {
                assert(!(m[m.len() - 2] == '-' && m[m.len() - 1] == '-'));
            } else if m[m.len() - 2] != '-' {
                lemma_join_extend(segs, c);
            } else {
                lemma_join_push(segs, seq![c]);
                assert(p.drop_last() + "-"@ + seq![c] =~= m);
            }
        }
    }
}

/// Slugifying a slug gives it back.
pub proof fn law_slug_idempotent(input: Seq<char>)
    ensures
        slugify_spec(slugify_spec(input)) == slugify_spec(input),
{
    let r = slugify_spec(input);
    law_slug_shape(input);
    let m = r.map_values(|c: char| slug_char(c));
    assert(m =~= r) by {
        assert forall|i: int| 0 <= i < r.len() implies m[i] == r[i] by {
            assert(slug_alphabet(r[i]));
        }
    }
    lemma_join_segments_of_shaped(r);
}

proof fn lemma_join_nonempty(segs: Seq<Seq<char>>)
    requires
        segs.len() > 0,
        forall|k: int| 0 <= k < segs.len() ==> #[trigger] segs[k].len() > 0,
    ensures
        join(segs, "-"@).len() > 0,
{
}

proof fn lemma_join_push(segs: Seq<Seq<char>>, x: Seq<char>)
    requires
        segs.len() > 0,
    ensures
        join(segs.push(x), "-"@) == join(segs, "-"@) + "-"@ + x,
{
    assert(segs.push(x).drop_last() =~= segs);
}

proof fn lemma_join_extend(segs: Seq<Seq<char>>, c: char)
    requires
        segs.len() > 0,
    ensures
        join(segs.drop_last().push(segs.last().push(c)), "-"@) == join(segs, "-"@).push(c),
{
    let init = segs.drop_last();
    assert(segs.drop_last().push(segs.last().push(c)).drop_last() =~= init);
    if segs.len() == 1 {
    } else {
        assert(join(segs, "-"@) == join(init, "-"@) + "-"@ + segs.last());
        assert(join(init, "-"@) + "-"@ + segs.last().push(c) =~= (join(init, "-"@) + "-"@ + segs.last()).push(c));
    }
}


/// Whether a live search is made with this key: there is one and it is
/// not a placeholder.
pub open spec fn live_search_allowed_spec(api_key: Option<String>) -> bool {
    match api_key {
        Some(k) => !is_blank(k@) && !is_test_key_spec(k@),
        None => false,
    }
}

/// Whether a live search is made with this key.
pub fn live_search_allowed(api_key: &Option<String>) -> (b: bool)
    ensures
        b == live_search_allowed_spec(*api_key),
{
    match api_key {
        Some(k) => !chars_blank(&chars_of(k.as_str())) && !is_test_key(k.as_str()),
        None => false,
    }
}

/// The source named in stand-in results: `exa-fallback` where a key was
/// configured, `mock-exa` where none was.
pub open spec fn fallback_source_spec(api_key: Option<String>) -> Seq<char> {
    if api_key is Some { "exa-fallback"@ } else { "mock-exa"@ }
}

/// The query sent for an agent's live search.
pub open spec fn search_request_spec(query: Seq<char>, agent_name: Seq<char>) -> Seq<char> {
    query + " for "@ + agent_name
}

/// The query sent for an agent's live search: the query, `for`, the agent.
pub fn search_request_text(query: &str, agent_name: &str) -> (t: String)
    ensures
        t@ == search_request_spec(query@, agent_name@),
{
    let mut t = String::from_str(query);
    push_str(&mut t, " for ");
    push_str(&mut t, agent_name);
    t
}

/// The two stand-in results for an agent's search.
pub open spec fn mock_results_spec(query: Seq<char>, agent_name: Seq<char>, source: Seq<char>, date: Seq<char>) -> Seq<(Seq<char>, Seq<char>, Seq<char>, Seq<char>, Option<Seq<char>>)> {
    let slug = slugify_spec(query);
    seq![
        (agent_name + " primary signal for "@ + query, "https://example.com/"@ + agent_name + "/"@ + slug,
            "Fresh market signal gathered for "@ + query + " using "@ + source + "."@, source, Some(date)),
        (agent_name + " secondary signal for "@ + query, "https://example.com/"@ + agent_name + "/"@ + slug + "/secondary"@,
            "Cross-validated competitive context and trend notes."@, source, Some(date)),
    ]
}

/// A search result as plain text fields.
pub open spec fn result_fields(r: SearchResult) -> (Seq<char>, Seq<char>, Seq<char>, Seq<char>, Option<Seq<char>>) {
    (r.title@, r.url@, r.snippet@, r.source@, match r.published_date { Some(d) => Some(d@), None => None })
}

/// The fields of each search result, in order.
pub open spec fn results_fields(v: Seq<SearchResult>) -> Seq<(Seq<char>, Seq<char>, Seq<char>, Seq<char>, Option<Seq<char>>)> {
    v.map_values(|r: SearchResult| result_fields(r))
}

fn concat3(a: &str, b: &str, c: &str) -> (t: String)
    ensures
        t@ == a@ + b@ + c@,
{
    let mut t = String::from_str(a);
    push_str(&mut t, b);
    push_str(&mut t, c);
    t
}

/// The two results that stand in for a search that was not made or gave
/// nothing, dated `date`.
pub fn mock_search_results(query: &str, agent_name: &str, source: &str, date: &str) -> (v: Vec<SearchResult>)
    ensures
        results_fields(v@) == mock_results_spec(query@, agent_name@, source@, date@),
{
    let slug = slugify(query);
    let first = SearchResult {
        title: concat3(agent_name, " primary signal for ", query),
        url: {
            let mut u = concat3("https://example.com/", agent_name, "/");
            push_str(&mut u, slug.as_str());
            u
        },
        snippet: {
            let mut t = concat3("Fresh market signal gathered for ", query, " using ");
            push_str(&mut t, source);
            push_str(&mut t, ".");
            t
        },
        source: String::from_str(source),
        published_date: Some(String::from_str(date)),
    };
    let second = SearchResult {
        title: concat3(agent_name, " secondary signal for ", query),
        url: {
            let mut u = concat3("https://example.com/", agent_name, "/");
            push_str(&mut u, slug.as_str());
            push_str(&mut u, "/secondary");
            u
        },
        snippet: String::from_str("Cross-validated competitive context and trend notes."),
        source: String::from_str(source),
        published_date: Some(String::from_str(date)),
    };
    let v = vec![first, second];
    assert(results_fields(v@) =~= mock_results_spec(query@, agent_name@, source@, date@));
    v
}

/// A field of a search hit as the search service sent it: missing, present
/// with a value that is not text, or text.
#[derive(Clone, Debug)]
pub enum RawField {
    Missing,
    Other,
    Text(String),
}

/// The text of a field, if it is text.
pub open spec fn field_text(f: RawField) -> Option<Seq<char>> {
    match f {
        RawField::Text(s) => Some(s@),
        _ => None,
    }
}

/// The text of the first of two fields that is present (present but not
/// text gives none, without looking at the second).
pub open spec fn first_present_text(a: RawField, b: RawField) -> Option<Seq<char>> {
    match a {
        RawField::Missing => field_text(b),
        _ => field_text(a),
    }
}

/// A search hit as the search service returned it, field by field: the
/// snippet may come as `text` or as `snippet`, the date as `publishedDate`
/// or as `published_date`.
#[derive(Clone, Debug)]
pub struct RawSearchItem {
    pub title: RawField,
    pub url: RawField,
    pub text: RawField,
    pub snippet: RawField,
    pub published_date_camel: RawField,
    pub published_date_snake: RawField,
}

/// The text of `o`, or `d` where there is none.
pub open spec fn text_or(o: Option<Seq<char>>, d: Seq<char>) -> Seq<char> {
    match o {
        Some(s) => s,
        None => d,
    }
}

/// The search result made of a hit: `text` before `snippet`,
/// `publishedDate` before `published_date`, and defaults for missing text.
pub open spec fn result_of_item(item: RawSearchItem) -> (Seq<char>, Seq<char>, Seq<char>, Seq<char>, Option<Seq<char>>) {
    (
        text_or(field_text(item.title), "Untitled result"@),
        text_or(field_text(item.url), "https://example.com"@),
        text_or(first_present_text(item.text, item.snippet), "No snippet provided"@),
        "exa"@,
        first_present_text(item.published_date_camel, item.published_date_snake),
    )
}

/// What a search hit becomes, field by field: a title or address that is
/// text is kept, else the placeholder; the snippet is `text` where that
/// member is present (its text, or the placeholder where it is not text),
/// else `snippet`; the source is `exa`; the date is `publishedDate` where
/// present, else `published_date`, and none where the member chosen is not
/// text.
pub proof fn law_search_hit_fields(item: RawSearchItem)
    ensures
        result_of_item(item).0 == match item.title {
            RawField::Text(t) => t@,
            _ => "Untitled result"@,
        },
        result_of_item(item).1 == match item.url {
            RawField::Text(u) => u@,
            _ => "https://example.com"@,
        },
        result_of_item(item).2 == match (item.text, item.snippet) {
            (RawField::Text(t), _) => t@,
            (RawField::Other, _) => "No snippet provided"@,
            (RawField::Missing, RawField::Text(t)) => t@,
            (RawField::Missing, _) => "No snippet provided"@,
        },
        result_of_item(item).3 == "exa"@,
        result_of_item(item).4 == match (item.published_date_camel, item.published_date_snake) {
            (RawField::Text(d), _) => Some(d@),
            (RawField::Other, _) => None,
            (RawField::Missing, RawField::Text(d)) => Some(d@),
            (RawField::Missing, _) => None,
        },
{
}

fn take_text(f: RawField) -> (o: Option<String>)
    ensures
        match o {
            Some(s) => field_text(f) == Some(s@),
            None => field_text(f) is None,
        },
{
    match f {
        RawField::Text(s) => Some(s),
        _ => None,
    }
}

fn take_first_present(a: RawField, b: RawField) -> (o: Option<String>)
    ensures
        match o {
            Some(s) => first_present_text(a, b) == Some(s@),
            None => first_present_text(a, b) is None,
        },
{
    match a {
        RawField::Missing => take_text(b),
        _ => take_text(a),
    }
}

fn text_or_default(o: Option<String>, d: &str) -> (t: String)
    ensures
        t@ == text_or(
            match o {
                Some(s) => Some(s@),
                None => None,
            },
            d@,
        ),
{
    match o {
        Some(s) => s,
        None => String::from_str(d),
    }
}

/// The results of a live search: the first five hits, each with defaults
/// for missing fields and `exa` as its source.
pub fn results_from_items(items: Vec<RawSearchItem>) -> (v: Vec<SearchResult>)
    ensures
        v@.len() == if items@.len() < 5 { items@.len() } else { 5 },
        forall|i: int| 0 <= i < v@.len() ==> #[trigger] result_fields(v@[i]) == result_of_item(items@[i]),
{
    let n: usize = if items.len() < 5 { items.len() } else { 5 };
    let mut rest = items;
    let ghost all = rest@;
    let mut v: Vec<SearchResult> = Vec::new();
    let mut i: usize = 0;
    while i < n
        invariant
            n <= all.len(),
            i <= n,
            rest@ == all.skip(i as int),
            v@.len() == i,
            forall|j: int| 0 <= j < i ==> #[trigger] result_fields(v@[j]) == result_of_item(all[j]),
        decreases n - i,
    {
        let item = rest.remove(0);
        assert(all.skip(i as int)[0] == all[i as int]);
        assert(rest@ =~= all.skip(i + 1));
        let r = SearchResult {
            title: text_or_default(take_text(item.title), "Untitled result"),
            url: text_or_default(take_text(item.url), "https://example.com"),
            snippet: text_or_default(take_first_present(item.text, item.snippet), "No snippet provided"),
            source: String::from_str("exa"),
            published_date: take_first_present(item.published_date_camel, item.published_date_snake),
        };
        v.push(r);
        i = i + 1;
    }
    v
}

/// Why a reply of the search service gave no results.
#[derive(Clone, Copy, Debug, PartialEq, Eq, Structural)]
pub enum SearchError {
    MissingResults,
}

impl SearchError {
    /// The message of the error.
    pub fn message(&self) -> (m: String)
        ensures
            m@ == "Exa response missing results array"@,
    {
        String::from_str("Exa response missing results array")
    }
}

/// The results of a reply of the search service, whose `results` member is
/// given as the hits it holds where it is an array, `None` where it is
/// missing or not an array: an error in that case, else the first five hits
/// made into results.
pub fn results_from_response(results: Option<Vec<RawSearchItem>>) -> (r: Result<Vec<SearchResult>, SearchError>)
    ensures
        results is None <==> r == Err::<Vec<SearchResult>, SearchError>(SearchError::MissingResults),
        results is Some ==> r is Ok && r.unwrap()@.len() == if results.unwrap()@.len() < 5 {
            results.unwrap()@.len()
        } else {
            5
        },
        results is Some ==> forall|i: int|
            0 <= i < r.unwrap()@.len() ==> #[trigger] result_fields(r.unwrap()@[i]) == result_of_item(results.unwrap()@[i]),
{
    match results {
        Some(items) => Ok(results_from_items(items)),
        None => Err(SearchError::MissingResults),
    }
}

/// The results an agent works with: those of the live search where one
/// was allowed and gave any, else the stand-in results.
pub open spec fn chosen_results(api_key: Option<String>, live: Option<Vec<SearchResult>>) -> bool {
    live_search_allowed_spec(api_key) && live is Some && live.unwrap()@.len() > 0
}

/// The results an agent works with. `live` is what the live search gave,
/// `None` where it was not made or failed.
pub fn search_results(api_key: &Option<String>, live: Option<Vec<SearchResult>>, query: &str, agent_name: &str, date: &str) -> (v: Vec<SearchResult>)
    ensures
        chosen_results(*api_key, live) ==> v@ == live.unwrap()@,
        !chosen_results(*api_key, live) ==> results_fields(v@) == mock_results_spec(query@, agent_name@, fallback_source_spec(*api_key), date@),
{
    if live_search_allowed(api_key) {
        match live {
            Some(found) => {
                if found.len() > 0 {
                    return found;
                }
            },
            None => {},
        }
    }
    let source = if api_key.is_some() { "exa-fallback" } else { "mock-exa" };
    mock_search_results(query, agent_name, source, date)
}

/// The first line of a text, as `str::lines` yields it: up to the first
/// line feed, without a carriage return before it; the whole text where
/// there is no line feed.
pub open spec fn first_line(p: Seq<char>) -> Seq<char> {
    if exists|i: int| 0 <= i < p.len() && p[i] == '\n' {
        let i = choose|i: int| 0 <= i < p.len() && p[i] == '\n' && forall|j: int| 0 <= j < i ==> p[j] != '\n';
        let l = p.take(i);
        if l.len() > 0 && l.last() == '\r' { l.drop_last() } else { l }
    } else {
        p
    }
}

fn first_line_of(p: &str) -> (l: String)
    ensures
        l@ == first_line(p@),
{
    let cs = chars_of(p);
    let mut i: usize = 0;
    while i < cs.len() && cs[i] != '\n'
        invariant
            cs@ == p@,
            i <= cs.len(),
            forall|j: int| 0 <= j < i ==> cs@[j] != '\n',
        decreases cs.len() - i,
    {
        i = i + 1;
    }
    if i == cs.len() {
        assert(!(exists|k: int| 0 <= k < p@.len() && p@[k] == '\n'));
        return String::from_str(p);
    }
    proof {
        let k = choose|k: int| 0 <= k < p@.len() && p@[k] == '\n' && forall|j: int| 0 <= j < k ==> p@[j] != '\n';
        assert(p@[i as int] == '\n');
        if k < i {
        } else if k > i {
            assert(p@[i as int] != '\n');
        }
        assert(k == i);
    }
    let end = if i > 0 && cs[i - 1] == '\r' { i - 1 } else { i };
    let line = crate::text::sub_chars(&cs, 0, end);
    assert(line@ =~= first_line(p@));
    string_from_chars(&line)
}

/// The text that stands in for a generation that was not made or gave
/// nothing.
pub open spec fn mock_generation_spec(backend: ModelBackend, model: Seq<char>, api_base_url: Seq<char>, prompt: Seq<char>, system: Option<Seq<char>>) -> Seq<char> {
    let prefix = match system { Some(s) => s, None => "Strategic research synthesis"@ };
    "["@ + backend.name_spec() + ":"@ + model + "] via "@ + api_base_url + "\n\n"@ + prefix
        + "\n\nSynthesis:\n- "@ + first_line(prompt)
        + "\n- Confidence weighted against source freshness\n- Recommended next action included"@
}

/// The text that stands in for a generation: the backend, model and
/// service, the system prompt, and the first line of the prompt.
pub fn mock_generation(backend: &ModelBackend, model: &str, api_base_url: &str, prompt: &str, system: Option<&str>) -> (t: String)
    ensures
        t@ == mock_generation_spec(*backend, model@, api_base_url@, prompt@, match system { Some(s) => Some(s@), None => None }),
{
    let mut t = String::from_str("[");
    push_str(&mut t, backend.name());
    push_str(&mut t, ":");
    push_str(&mut t, model);
    push_str(&mut t, "] via ");
    push_str(&mut t, api_base_url);
    push_str(&mut t, "\n\n");
    match system {
        Some(s) => push_str(&mut t, s),
        None => push_str(&mut t, "Strategic research synthesis"),
    }
    push_str(&mut t, "\n\nSynthesis:\n- ");
    let line = first_line_of(prompt);
    push_str(&mut t, line.as_str());
    push_str(&mut t, "\n- Confidence weighted against source freshness\n- Recommended next action included");
    t
}

/// Why a reply of the model service gave no text.
#[derive(Clone, Copy, Debug, PartialEq, Eq, Structural)]
pub enum GenerationError {
    MissingContent,
}

impl GenerationError {
    /// The message of the error.
    pub fn message(&self) -> (m: String)
        ensures
            m@ == "generation response missing choices[0].message.content"@,
    {
        String::from_str("generation response missing choices[0].message.content")
    }
}

/// The text of a reply of the model service, whose `choices` member is
/// given as the `message.content` field of each choice where it is an
/// array, `None` where it is missing or not an array: the content of the
/// first choice where it is text, else an error.
pub fn reply_content(choices: Option<Vec<RawField>>) -> (r: Result<String, GenerationError>)
    ensures
        match r {
            Ok(t) => choices is Some && choices.unwrap()@.len() > 0 && field_text(choices.unwrap()@[0]) == Some(t@),
            Err(e) => e == GenerationError::MissingContent && (choices is None || choices.unwrap()@.len() == 0
                || field_text(choices.unwrap()@[0]) is None),
        },
{
    match choices {
        Some(mut contents) => {
            if contents.len() == 0 {
                return Err(GenerationError::MissingContent);
            }
            let first = contents.swap_remove(0);
            match take_text(first) {
                Some(t) => Ok(t),
                None => Err(GenerationError::MissingContent),
            }
        },
        None => Err(GenerationError::MissingContent),
    }
}

/// The text an agent's generation yields: the live text where a live call
/// was allowed and gave text that is not blank, else the stand-in text.
/// `live` is what the live call gave, `None` where it was not made or
/// failed.
pub fn generation_text(api_key: &str, live: Option<String>, backend: &ModelBackend, model: &str, api_base_url: &str, prompt: &str, system: Option<&str>) -> (t: String)
    ensures
        !is_test_key_spec(api_key@) && live is Some && !is_blank(live.unwrap()@) ==> t@ == live.unwrap()@,
        !(!is_test_key_spec(api_key@) && live is Some && !is_blank(live.unwrap()@)) ==> t@ == mock_generation_spec(*backend, model@, api_base_url@, prompt@, match system { Some(s) => Some(s@), None => None }),
{
    if !is_test_key(api_key) {
        match live {
            Some(content) => {
                if !chars_blank(&chars_of(content.as_str())) {
                    return content;
                }
            },
            None => {},
        }
    }
    mock_generation(backend, model, api_base_url, prompt, system)
}

/// `s` without the `/` characters at its end.
pub open spec fn trim_slashes(s: Seq<char>) -> Seq<char>
    decreases s.len(),
{
    if s.len() > 0 && s.last() == '/' { trim_slashes(s.drop_last()) } else { s }
}

/// The address of the chat completion endpoint of a service.
pub fn chat_completions_url(api_base_url: &str) -> (u: String)
    ensures
        u@ == trim_slashes(api_base_url@) + "/chat/completions"@,
{
    let cs = chars_of(api_base_url);
    let mut j: usize = cs.len();
    assert(cs@.take(j as int) =~= cs@);
    while j > 0 && cs[j - 1] == '/'
        invariant
            cs@ == api_base_url@,
            j <= cs.len(),
            trim_slashes(cs@) == trim_slashes(cs@.take(j as int)),
        decreases j,
    {
        assert(cs@.take(j as int).drop_last() =~= cs@.take(j - 1));
        j = j - 1;
    }
    let base = crate::text::sub_chars(&cs, 0, j);
    assert(base@ =~= cs@.take(j as int));
    let mut u = string_from_chars(&base);
    push_str(&mut u, "/chat/completions");
    u
}

/// The value of the authorization header for a key.
pub fn bearer_header(api_key: &str) -> (h: String)
    ensures
        h@ == "Bearer "@ + api_key@,
{
    let mut h = String::from_str("Bearer ");
    push_str(&mut h, api_key);
    h
}

/// Whether a key is a placeholder does not depend on the case of its ASCII
/// letters nor on spaces around it.
pub proof fn law_test_key_case_and_space(value: Seq<char>)
    ensures
        is_test_key_spec(seq![' '] + crate::text::ascii_upper(value) + seq![' ']) == is_test_key_spec(value),
{
    crate::text::lemma_trim_padded(crate::text::ascii_upper(value));
    crate::text::lemma_trim_lower_upper(value);
}

/// A key is a placeholder where, trimmed and in small letters, it is empty
/// or `test`, begins with `test-`, or holds `dummy` or `example`.
pub proof fn law_test_key_words(value: Seq<char>)
    ensures
        is_test_key_spec(value) == {
            let l = ascii_lower(trim(value));
            ||| l.len() == 0
            ||| l == "test"@
            ||| "test-"@.is_prefix_of(l)
            ||| exists|i: int| 0 <= i && i + 5 <= l.len() && #[trigger] l.subrange(i, i + 5) == "dummy"@
            ||| exists|i: int| 0 <= i && i + 7 <= l.len() && #[trigger] l.subrange(i, i + 7) == "example"@
        },
{
    reveal_strlit("test-");
    reveal_strlit("dummy");
    reveal_strlit("example");
    let l = ascii_lower(trim(value));
    assert(starts_with(l, "test-"@) == "test-"@.is_prefix_of(l)) by {
        if "test-"@.is_prefix_of(l) {
            assert(l.subrange(0, 5) =~= "test-"@);
        }
        if starts_with(l, "test-"@) {
            assert forall|i: int| 0 <= i < 5 implies "test-"@[i] == l[i] by {
                assert(l.subrange(0, 5)[i] == l[i]);
            }
        }
    }
    assert(contains(l, "dummy"@) == exists|i: int| 0 <= i && i + 5 <= l.len() && #[trigger] l.subrange(i, i + 5) == "dummy"@) by {
        if contains(l, "dummy"@) {
            let i = choose|i: int| crate::text::occurs_at(l, "dummy"@, i);
            assert(l.subrange(i, i + 5) == "dummy"@);
        }
        if exists|i: int| 0 <= i && i + 5 <= l.len() && #[trigger] l.subrange(i, i + 5) == "dummy"@ {
            let i = choose|i: int| 0 <= i && i + 5 <= l.len() && #[trigger] l.subrange(i, i + 5) == "dummy"@;
            assert(crate::text::occurs_at(l, "dummy"@, i));
        }
    }
    assert(contains(l, "example"@) == exists|i: int| 0 <= i && i + 7 <= l.len() && #[trigger] l.subrange(i, i + 7) == "example"@) by {
        if contains(l, "example"@) {
            let i = choose|i: int| crate::text::occurs_at(l, "example"@, i);
            assert(l.subrange(i, i + 7) == "example"@);
        }
        if exists|i: int| 0 <= i && i + 7 <= l.len() && #[trigger] l.subrange(i, i + 7) == "example"@ {
            let i = choose|i: int| 0 <= i && i + 7 <= l.len() && #[trigger] l.subrange(i, i + 7) == "example"@;
            assert(crate::text::occurs_at(l, "example"@, i));
        }
    }
}

/// A live search is made exactly when a key is configured and it is not a
/// placeholder (a blank key is one).
pub proof fn law_live_search_allowed(api_key: Option<String>)
    ensures
        live_search_allowed_spec(api_key) == (api_key is Some && !is_test_key_spec(api_key.unwrap()@)),
{
    match api_key {
        Some(k) => {
            if is_blank(k@) {
                assert(ascii_lower(trim(k@)).len() == 0);
            }
        },
        None => {},
    }
}

/// An agent works with the live results where a live search was allowed
/// and gave any; otherwise with the two stand-in results, whose source is
/// `exa-fallback` where a key was configured and `mock-exa` where none was.
/// The stand-ins are titled after the agent and the query, point to
/// `https://example.com/<agent>/<slug of the query>` (the second with
/// `/secondary` after it) and carry the date.
pub proof fn law_stand_in_results(api_key: Option<String>, live: Option<Vec<SearchResult>>, query: Seq<char>, agent: Seq<char>, date: Seq<char>)
    ensures
        chosen_results(api_key, live) == (live_search_allowed_spec(api_key) && live is Some && live.unwrap()@.len() > 0),
        fallback_source_spec(api_key) == if api_key is Some { "exa-fallback"@ } else { "mock-exa"@ },
        ({
            let v = mock_results_spec(query, agent, fallback_source_spec(api_key), date);
            let src = if api_key is Some { "exa-fallback"@ } else { "mock-exa"@ };
            let url = "https://example.com/"@ + agent + "/"@ + slugify_spec(query);
            &&& v.len() == 2
            &&& v[0] == (agent + " primary signal for "@ + query, url,
                "Fresh market signal gathered for "@ + query + " using "@ + src + "."@, src, Some(date))
            &&& v[1] == (agent + " secondary signal for "@ + query, url + "/secondary"@,
                "Cross-validated competitive context and trend notes."@, src, Some(date))
        }),
{
}

/// The chat endpoint is the service address without its trailing slashes,
/// then `/chat/completions`: what is cut off is slashes only, and what is
/// left does not end with one.
pub proof fn law_trim_slashes(u: Seq<char>)
    ensures
        trim_slashes(u).is_prefix_of(u),
        trim_slashes(u).len() == 0 || trim_slashes(u).last() != '/',
        forall|i: int| trim_slashes(u).len() <= i < u.len() ==> u[i] == '/',
    decreases u.len(),
{
    if u.len() > 0 && u.last() == '/' {
        law_trim_slashes(u.drop_last());
        assert forall|i: int| trim_slashes(u).len() <= i < u.len() implies u[i] == '/' by {
            if i < u.len() - 1 {
                assert(u.drop_last()[i] == u[i]);
            }
        }
    }
}

/// The stand-in for a generation names the backend, the model and the
/// service, then the system prompt (a fixed opening where there is none),
/// then a synthesis that starts from the first line of the prompt.
pub proof fn law_mock_generation(backend: ModelBackend, model: Seq<char>, api_base_url: Seq<char>, prompt: Seq<char>, system: Option<Seq<char>>)
    ensures
        mock_generation_spec(backend, model, api_base_url, prompt, system) == "["@ + match backend {
            ModelBackend::Fireworks => "fireworks"@,
            ModelBackend::Ollama => "ollama"@,
            ModelBackend::OpenAiCompatible => "openai-compatible"@,
            ModelBackend::Codex => "codex"@,
        } + ":"@ + model + "] via "@ + api_base_url + "\n\n"@ + match system {
            Some(s) => s,
            None => "Strategic research synthesis"@,
        } + "\n\nSynthesis:\n- "@ + first_line(prompt)
            + "\n- Confidence weighted against source freshness\n- Recommended next action included"@,
{
}

/// The first line of a prompt holds no line feed, and is the prompt itself
/// where the prompt has none.
pub proof fn law_first_line(p: Seq<char>)
    ensures
        forall|i: int| 0 <= i < first_line(p).len() ==> first_line(p)[i] != '\n',
        first_line(p).is_prefix_of(p),
        (forall|i: int| 0 <= i < p.len() ==> p[i] != '\n') ==> first_line(p) == p,
{
    if exists|i: int| 0 <= i < p.len() && p[i] == '\n' {
        let k = choose|i: int| 0 <= i < p.len() && p[i] == '\n';
        lemma_first_newline(p, k);
    }
}

proof fn lemma_first_newline(p: Seq<char>, k: int)
    requires
        0 <= k < p.len(),
        p[k] == '\n',
    ensures
        exists|i: int| 0 <= i < p.len() && p[i] == '\n' && forall|j: int| 0 <= j < i ==> p[j] != '\n',
    decreases k,
{
    if exists|j: int| 0 <= j < k && p[j] == '\n' {
        let j = choose|j: int| 0 <= j < k && p[j] == '\n';
        lemma_first_newline(p, j);
    } else {
        assert(0 <= k < p.len() && p[k] == '\n' && forall|j: int| 0 <= j < k ==> p[j] != '\n');
    }
}

proof fn lemma_segments_nonempty(b: Seq<char>)
    requires
        b.len() > 0,
        b.last() != '-',
    ensures
        segments(b).len() > 0,
{
}

proof fn lemma_segments_split(a: Seq<char>, b: Seq<char>)
    ensures
        segments(a + seq!['-'] + b) == segments(a) + segments(b),
    decreases b.len(),
{
    let m = a + seq!['-'] + b;
    if b.len() == 0 {
        assert(m.drop_last() =~= a);
        assert(m.last() == '-');
        assert(segments(a) + segments(b) =~= segments(a));
    } else {
        let bp = b.drop_last();
        let c = b.last();
        lemma_segments_split(a, bp);
        assert(m.drop_last() =~= a + seq!['-'] + bp);
        assert(m.last() == c);
        let sa = segments(a);
        let sb = segments(bp);
        if c == '-' {
        } else if bp.len() == 0 {
            assert(m[m.len() - 2] == '-');
            assert(segments(b) =~= seq![seq![c]]);
            assert((sa + sb).push(seq![c]) =~= sa + segments(b));
        } else if bp.last() == '-' {
            assert(m[m.len() - 2] == bp.last());
            assert(b[b.len() - 2] == bp.last());
            assert((sa + sb).push(seq![c]) =~= sa + sb.push(seq![c]));
        } else {
            assert(m[m.len() - 2] == bp.last());
            assert(b[b.len() - 2] == bp.last());
            lemma_segments_nonempty(bp);
            assert((sa + sb).drop_last() =~= sa + sb.drop_last());
            assert((sa + sb).last() == sb.last());
            assert((sa + sb).drop_last().push((sa + sb).last().push(c)) =~= sa + sb.drop_last().push(sb.last().push(c)));
        }
    }
}

proof fn lemma_join_concat(s1: Seq<Seq<char>>, s2: Seq<Seq<char>>)
    requires
        s1.len() > 0,
        s2.len() > 0,
    ensures
        join(s1 + s2, "-"@) == join(s1, "-"@) + "-"@ + join(s2, "-"@),
    decreases s2.len(),
{
    if s2.len() == 1 {
        assert(s1 + s2 =~= s1.push(s2[0]));
        lemma_join_push(s1, s2[0]);
    } else {
        let p2 = s2.drop_last();
        lemma_join_concat(s1, p2);
        assert((s1 + s2).drop_last() =~= s1 + p2);
        assert((s1 + s2).last() == s2.last());
    }
}

/// Where a character other than an ASCII letter or digit separates two
/// texts, the slug of the whole is the slugs of the two joined by a dash,
/// or the one that is not empty where the other is.
pub proof fn law_slug_splits(x: Seq<char>, c: char, y: Seq<char>)
    requires
        !is_ascii_alnum(c),
    ensures
        slugify_spec(x + seq![c] + y) == if slugify_spec(x).len() == 0 {
            slugify_spec(y)
        } else if slugify_spec(y).len() == 0 {
            slugify_spec(x)
        } else {
            slugify_spec(x) + "-"@ + slugify_spec(y)
        },
{
    let mx = x.map_values(|c: char| slug_char(c));
    let my = y.map_values(|c: char| slug_char(c));
    assert((x + seq![c] + y).map_values(|c: char| slug_char(c)) =~= mx + seq!['-'] + my);
    lemma_segments_split(mx, my);
    assert forall|i: int| 0 <= i < mx.len() implies slug_alphabet(#[trigger] mx[i]) by {
        lemma_slug_char_alphabet(x[i]);
    }
    assert forall|i: int| 0 <= i < my.len() implies slug_alphabet(#[trigger] my[i]) by {
        lemma_slug_char_alphabet(y[i]);
    }
    lemma_segments_words(mx);
    lemma_segments_words(my);
    lemma_join_words_shaped(segments(mx));
    lemma_join_words_shaped(segments(my));
    let sx = segments(mx);
    let sy = segments(my);
    if sx.len() == 0 {
        assert(sx + sy =~= sy);
    } else if sy.len() == 0 {
        assert(sx + sy =~= sx);
    } else {
        lemma_join_concat(sx, sy);
    }
}

/// The slug of a run of ASCII letters and digits is the run in small
/// letters.
pub proof fn law_slug_of_word(w: Seq<char>)
    requires
        forall|i: int| 0 <= i < w.len() ==> is_ascii_alnum(#[trigger] w[i]),
    ensures
        slugify_spec(w) == ascii_lower(w),
{
    let m = w.map_values(|c: char| slug_char(c));
    assert forall|i: int| 0 <= i < m.len() implies m[i] != '-' && m[i] == lower_char(w[i]) by {
        assert(is_ascii_alnum(w[i]));
    }
    lemma_join_segments_of_shaped(m);
    assert(m =~= ascii_lower(w));
}

} // verus!
