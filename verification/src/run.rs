//! The bookkeeping of a run: the agents' outputs, the progress that
//! checkpoints record, the plan of a run, and the report it ends with.

use vstd::prelude::*;
use crate::config::{ExportFormat, RuntimeConfig, texts};
use crate::keyed::{NameMap, keys_of, put};
use crate::models::{AgentFailure, AgentOutput, Checkpoint, EnhancedReport, Insight, RunMetadata, SearchResult, SwarmResults, TrendAnalysis};
use crate::report::{action_items_spec, average_confidence_spec, confidence_chart, dedup_spec, executive_summary_spec};
use crate::text::{chars_contain, chars_equal, chars_of, decimal, join, lemma_take_all, push_decimal, push_str};

verus! {

fn copy_text(s: &String) -> (r: String)
    ensures
        r == *s,
{
    s.clone()
}

fn copy_opt_text(s: &Option<String>) -> (r: Option<String>)
    ensures
        r == *s,
{
    match s {
        Some(t) => Some(t.clone()),
        None => None,
    }
}

fn copy_result(r: &SearchResult) -> (c: SearchResult)
    ensures
        c == *r,
{
    SearchResult {
        title: copy_text(&r.title),
        url: copy_text(&r.url),
        snippet: copy_text(&r.snippet),
        source: copy_text(&r.source),
        published_date: copy_opt_text(&r.published_date),
    }
}

fn copy_results(v: &Vec<SearchResult>) -> (c: Vec<SearchResult>)
    ensures
        c@ == v@,
{
    let mut c: Vec<SearchResult> = Vec::new();
    let mut i: usize = 0;
    while i < v.len()
        invariant
            i <= v@.len(),
            c@ == v@.take(i as int),
        decreases v@.len() - i,
    {
        c.push(copy_result(&v[i]));
        assert(c@ =~= v@.take(i + 1));
        i = i + 1;
    }
    assert(v@.take(i as int) =~= v@);
    c
}

fn concat3(a: &str, b: &str, c: &str) -> (t: String)
    ensures
        t@ == a@ + b@ + c@,
{
    let mut t = String::from_str(a);
    push_str(&mut t, b);
    push_str(&mut t, c);
    t
}

/// The two insights that an agent draws: an opportunity and an
/// experiment, each on all the sources.
pub open spec fn insights_spec(agent: Seq<char>, query: Seq<char>, sources: Seq<SearchResult>, depth: u8, ins: Seq<Insight>) -> bool {
    &&& ins.len() == 2
    &&& ins[0].summary@ == agent + " found a validated opportunity cluster around "@ + query + "."@
    &&& ins[0].confidence == 78 + depth
    &&& texts(ins[0].action_items@) == seq!["Prioritize "@ + agent + " recommendations for "@ + query + "."@]
    &&& ins[0].sources@ == sources
    &&& texts(ins[0].tags@) == seq!["opportunity"@, "validated"@]
    &&& ins[1].summary@ == agent + " identified a next-step experiment for "@ + query + "."@
    &&& ins[1].confidence == 75 + depth
    &&& texts(ins[1].action_items@) == seq!["Run a 2-week experiment based on "@ + agent + " findings."@]
    &&& ins[1].sources@ == sources
    &&& texts(ins[1].tags@) == seq!["experiment"@, "roadmap"@]
}

/// The insights that an agent draws from its sources.
pub fn build_insights(agent_name: &str, query: &str, sources: &Vec<SearchResult>, depth: u8) -> (ins: Vec<Insight>)
    requires
        depth <= 177,
    ensures
        insights_spec(agent_name@, query@, sources@, depth, ins@),
{
    let mut s1 = concat3(agent_name, " found a validated opportunity cluster around ", query);
    push_str(&mut s1, ".");
    let mut a1 = concat3("Prioritize ", agent_name, " recommendations for ");
    push_str(&mut a1, query);
    push_str(&mut a1, ".");
    let mut s2 = concat3(agent_name, " identified a next-step experiment for ", query);
    push_str(&mut s2, ".");
    let a2 = concat3("Run a 2-week experiment based on ", agent_name, " findings.");
    let first = Insight {
        summary: s1,
        confidence: 78 + depth,
        action_items: vec![a1],
        sources: copy_results(sources),
        tags: vec![String::from_str("opportunity"), String::from_str("validated")],
    };
    let second = Insight {
        summary: s2,
        confidence: 75 + depth,
        action_items: vec![a2],
        sources: copy_results(sources),
        tags: vec![String::from_str("experiment"), String::from_str("roadmap")],
    };
    assert(texts(first.action_items@) =~= seq!["Prioritize "@ + agent_name@ + " recommendations for "@ + query@ + "."@]);
    assert(texts(first.tags@) =~= seq!["opportunity"@, "validated"@]);
    assert(texts(second.action_items@) =~= seq!["Run a 2-week experiment based on "@ + agent_name@ + " findings."@]);
    assert(texts(second.tags@) =~= seq!["experiment"@, "roadmap"@]);
    vec![first, second]
}

/// The line that lists one source in a prompt.
pub open spec fn source_line(r: SearchResult) -> Seq<char> {
    "- "@ + r.title@ + " | "@ + r.url@ + " | "@ + r.snippet@
}

/// The first eight sources, one per line.
pub open spec fn format_sources_spec(sources: Seq<SearchResult>) -> Seq<char> {
    let n = if sources.len() < 8 { sources.len() } else { 8 };
    join(sources.take(n as int).map_values(|r: SearchResult| source_line(r)), "\n"@)
}

/// The first eight sources, one per line: title, address and snippet.
pub fn format_sources(sources: &Vec<SearchResult>) -> (t: String)
    ensures
        t@ == format_sources_spec(sources@),
{
    let n: usize = if sources.len() < 8 { sources.len() } else { 8 };
    let ghost parts = sources@.take(n as int).map_values(|r: SearchResult| source_line(r));
    let mut out = String::new();
    let mut i: usize = 0;
    while i < n
        invariant
            n <= sources@.len(),
            parts == sources@.take(n as int).map_values(|r: SearchResult| source_line(r)),
            i <= n,
            out@ == join(parts.take(i as int), "\n"@),
        decreases n - i,
    {
        let ghost before = out@;
        if i > 0 {
            push_str(&mut out, "\n");
        }
        push_str(&mut out, "- ");
        push_str(&mut out, sources[i].title.as_str());
        push_str(&mut out, " | ");
        push_str(&mut out, sources[i].url.as_str());
        push_str(&mut out, " | ");
        push_str(&mut out, sources[i].snippet.as_str());
        proof {
            crate::text::lemma_join_step(parts, "\n"@, i as int);
            if i == 0 {
                assert(parts.take(0) =~= Seq::<Seq<char>>::empty());
            }
            assert(out@ =~= join(parts.take(i + 1), "\n"@));
        }
        i = i + 1;
    }
    proof {
        lemma_take_all(parts);
    }
    out
}

/// A call of a tool that a generation asked for: the tool's name and the
/// text of its `query` argument, where it gave one as text.
#[derive(Clone, Debug)]
pub struct ToolCall {
    pub name: String,
    pub query: Option<String>,
}

/// Why the tool calls of a generation were refused.
#[derive(Clone, Debug, PartialEq, Eq, Structural)]
pub enum ToolCallError {
    /// A search call gave no query, or a blank one.
    MissingQuery,
}

/// The queries of the search calls among `calls`, in order; calls of other
/// tools are passed over. `None` where a search call has no query that is
/// not blank.
pub open spec fn search_queries_spec(calls: Seq<ToolCall>) -> Option<Seq<Seq<char>>>
    decreases calls.len(),
{
    if calls.len() == 0 {
        Some(Seq::<Seq<char>>::empty())
    } else {
        match search_queries_spec(calls.drop_last()) {
            None => None,
            Some(qs) => {
                let c = calls.last();
                if c.name@ != "search_exa"@ {
                    Some(qs)
                } else {
                    match c.query {
                        Some(q) => if crate::text::is_blank(q@) { None } else { Some(qs.push(q@)) },
                        None => None,
                    }
                }
            },
        }
    }
}

/// The queries of the search calls among `calls`, in order, or the error
/// where one of them has no query that is not blank.
pub fn search_tool_queries(calls: &Vec<ToolCall>) -> (r: Result<Vec<String>, ToolCallError>)
    ensures
        match r {
            Ok(qs) => search_queries_spec(calls@) == Some(texts(qs@)),
            Err(_) => search_queries_spec(calls@) is None,
        },
{
    let mut qs: Vec<String> = Vec::new();
    let mut i: usize = 0;
    while i < calls.len()
        invariant
            i <= calls@.len(),
            search_queries_spec(calls@.take(i as int)) == Some(texts(qs@)),
        decreases calls@.len() - i,
    {
        let call = &calls[i];
        proof {
            assert(calls@.take(i + 1).drop_last() =~= calls@.take(i as int));
            assert(calls@.take(i + 1).last() == *call);
        }
        if chars_equal(&chars_of(call.name.as_str()), &chars_of("search_exa")) {
            match &call.query {
                Some(q) => {
                    if crate::text::chars_blank(&chars_of(q.as_str())) {
                        proof {
                            lemma_queries_stay_none(calls@, i as int + 1);
                        }
                        return Err(ToolCallError::MissingQuery);
                    }
                    let ghost before = texts(qs@);
                    qs.push(q.clone());
                    assert(texts(qs@) =~= before.push(q@));
                },
                None => {
                    proof {
                        lemma_queries_stay_none(calls@, i as int + 1);
                    }
                    return Err(ToolCallError::MissingQuery);
                },
            }
        }
        i = i + 1;
    }
    assert(calls@.take(i as int) =~= calls@);
    Ok(qs)
}

proof fn lemma_queries_stay_none(calls: Seq<ToolCall>, k: int)
    requires
        0 <= k <= calls.len(),
        search_queries_spec(calls.take(k)) is None,
    ensures
        search_queries_spec(calls) is None,
    decreases calls.len() - k,
{
    if k < calls.len() {
        assert(calls.take(k + 1).drop_last() =~= calls.take(k));
        lemma_queries_stay_none(calls, k + 1);
    } else {
        assert(calls.take(k) =~= calls);
    }
}

/// The opening of an agent's prompt.
pub open spec fn agent_lead(agent: Seq<char>, query: Seq<char>, depth: u8) -> Seq<char> {
    "Agent "@ + agent + " researching "@ + query + " at depth "@ + decimal(depth as nat)
}

fn push_agent_lead(out: &mut String, agent_name: &str, query: &str, depth: u8)
    ensures
        final(out)@ == old(out)@ + agent_lead(agent_name@, query@, depth),
{
    push_str(out, "Agent ");
    push_str(out, agent_name);
    push_str(out, " researching ");
    push_str(out, query);
    push_str(out, " at depth ");
    push_decimal(out, depth as u64);
}

/// The prompt that an agent's generation starts from.
pub fn agent_prompt(agent_name: &str, query: &str, depth: u8) -> (p: String)
    ensures
        p@ == agent_lead(agent_name@, query@, depth)
            + ". Use the provided tool only when you need fresher or more targeted evidence."@,
{
    let mut p = String::new();
    push_agent_lead(&mut p, agent_name, query, depth);
    push_str(&mut p, ". Use the provided tool only when you need fresher or more targeted evidence.");
    p
}

/// The prompt that an agent's generation uses once it has searched with
/// the tool: the sources it found.
pub fn sources_prompt(agent_name: &str, query: &str, depth: u8, sources: &Vec<SearchResult>) -> (p: String)
    ensures
        p@ == agent_lead(agent_name@, query@, depth) + ". Use these validated sources:\n"@
            + format_sources_spec(sources@),
{
    let mut p = String::new();
    push_agent_lead(&mut p, agent_name, query, depth);
    push_str(&mut p, ". Use these validated sources:\n");
    let listed = format_sources(sources);
    push_str(&mut p, listed.as_str());
    p
}

/// The system prompt of every agent.
pub fn agent_system_prompt() -> (s: &'static str)
    ensures
        s@ == "Deliver concise, differentiated, actionable research. If useful, call the search_exa tool for additional live evidence. Do not invent tool results."@,
{
    "Deliver concise, differentiated, actionable research. If useful, call the search_exa tool for additional live evidence. Do not invent tool results."
}

/// The confidence of an agent's output: 70 plus five per level of depth,
/// at most 95.
pub open spec fn agent_confidence(depth: u8) -> nat {
    70 + if depth * 5 < 25 { (depth * 5) as nat } else { 25 }
}

/// What an agent delivers: its generated text followed by its two key
/// findings, with the confidence its depth gives it.
pub fn assemble_agent_output(agent_name: &str, query: &str, depth: u8, synthesis: &str, sources: Vec<SearchResult>, duration_ms: u64) -> (o: AgentOutput)
    requires
        depth <= 51,
    ensures
        o.agent_name@ == agent_name@,
        o.query_type@ == query@,
        o.confidence == agent_confidence(depth),
        o.duration_ms == duration_ms,
        o.recursive_depth == depth,
        o.sources@ == sources@,
        insights_spec(agent_name@, query@, sources@, depth, o.insights@),
        o.content@ == synthesis@ + "\n\nKey findings:\n- "@ + o.insights@[0].summary@ + "\n- "@ + o.insights@[1].summary@,
{
    let insights = build_insights(agent_name, query, &sources, depth);
    let mut content = String::from_str(synthesis);
    push_str(&mut content, "\n\nKey findings:\n- ");
    push_str(&mut content, insights[0].summary.as_str());
    push_str(&mut content, "\n- ");
    push_str(&mut content, insights[1].summary.as_str());
    let scaled = depth * 5;
    let bonus = if scaled < 25 { scaled } else { 25 };
    AgentOutput {
        agent_name: String::from_str(agent_name),
        query_type: String::from_str(query),
        content,
        confidence: 70 + bonus,
        duration_ms,
        recursive_depth: depth,
        sources,
        insights,
    }
}


/// `s` without the occurrences of `x`.
pub open spec fn without(s: Seq<Seq<char>>, x: Seq<char>) -> Seq<Seq<char>>
    decreases s.len(),
{
    if s.len() == 0 {
        s
    } else if s.last() == x {
        without(s.drop_last(), x)
    } else {
        without(s.drop_last(), x).push(s.last())
    }
}

/// Removing a name leaves no occurrence of it and keeps every other
/// name, in order.
pub proof fn law_without_removes(s: Seq<Seq<char>>, x: Seq<char>, y: Seq<char>)
    ensures
        !without(s, x).contains(x),
        y != x ==> (without(s, x).contains(y) == s.contains(y)),
    decreases s.len(),
{
    if s.len() > 0 {
        let p = s.drop_last();
        law_without_removes(p, x, y);
        assert(p.push(s.last()) =~= s);
        if without(s, x).contains(x) {
            let i = choose|i: int| 0 <= i < without(s, x).len() && without(s, x)[i] == x;
            if s.last() != x && i < without(p, x).len() {
                assert(without(p, x)[i] == x);
            }
        }
        if y != x {
            if s.contains(y) {
                let i = choose|i: int| 0 <= i < s.len() && s[i] == y;
                if i < p.len() {
                    assert(p[i] == y);
                    let k = choose|k: int| 0 <= k < without(p, x).len() && without(p, x)[k] == y;
                    if s.last() != x {
                        assert(without(s, x)[k] == y);
                    }
                } else if s.last() != x {
                    assert(without(s, x)[without(p, x).len() as int] == y);
                }
            }
            if without(s, x).contains(y) {
                let i = choose|i: int| 0 <= i < without(s, x).len() && without(s, x)[i] == y;
                if s.last() != x && i == without(p, x).len() {
                    assert(s[s.len() - 1] == y);
                } else {
                    assert(without(p, x)[i] == y);
                    let k = choose|k: int| 0 <= k < p.len() && p[k] == y;
                    assert(s[k] == y);
                }
            }
        }
    }
}

/// After an agent's output is recorded, the checkpoint holds the output
/// under the agent's name, lists the agent as completed, and no longer
/// lists it as remaining.
pub proof fn law_checkpoint_after_output(
    outputs: Seq<(Seq<char>, AgentOutput)>,
    completed: Seq<Seq<char>>,
    remaining: Seq<Seq<char>>,
    output: AgentOutput,
)
    requires
        crate::keyed::ascending(outputs),
    ensures
        crate::keyed::lookup(put(outputs, output.agent_name@, output), output.agent_name@) == Some(output),
        completed.push(output.agent_name@).contains(output.agent_name@),
        !without(remaining, output.agent_name@).contains(output.agent_name@),
{
    crate::keyed::law_read_after_insert(outputs, output.agent_name@, output, output.agent_name@);
    law_without_removes(remaining, output.agent_name@, output.agent_name@);
    assert(completed.push(output.agent_name@)[completed.len() as int] == output.agent_name@);
}

/// Recording the last agent that a resumed run had pending leaves no
/// remaining agent in the checkpoint, where the agents that were pending
/// are all that one agent. (With two or more different agents pending,
/// each checkpoint removes only the agent just recorded from the list the
/// run resumed with, so the last one still lists the others.)
pub proof fn law_resume_last_remaining_empty(pending: Seq<Seq<char>>, a: Seq<char>)
    requires
        forall|i: int| 0 <= i < pending.len() ==> #[trigger] pending[i] == a,
    ensures
        without(pending, a).len() == 0,
    decreases pending.len(),
{
    if pending.len() > 0 {
        let p = pending.drop_last();
        assert forall|i: int| 0 <= i < p.len() implies #[trigger] p[i] == a by {
            assert(p[i] == pending[i]);
        }
        law_resume_last_remaining_empty(p, a);
    }
}

fn remove_all(v: &Vec<String>, x: &String) -> (r: Vec<String>)
    ensures
        texts(r@) == without(texts(v@), x@),
{
    let mut r: Vec<String> = Vec::new();
    let mut i: usize = 0;
    while i < v.len()
        invariant
            i <= v@.len(),
            texts(r@) == without(texts(v@.take(i as int)), x@),
        decreases v@.len() - i,
    {
        let ghost before = texts(r@);
        assert(texts(v@.take(i + 1)).drop_last() =~= texts(v@.take(i as int)));
        assert(texts(v@.take(i + 1)).last() == v@[i as int]@);
        if v[i] != *x {
            r.push(v[i].clone());
            assert(texts(r@) =~= before.push(v@[i as int]@));
        }
        i = i + 1;
    }
    assert(v@.take(i as int) =~= v@);
    r
}

/// The first of `agents` that `error` mentions, if any.
pub open spec fn first_mentioned(agents: Seq<Seq<char>>, error: Seq<char>) -> Option<Seq<char>>
    decreases agents.len(),
{
    if agents.len() == 0 {
        None
    } else if crate::text::contains(error, agents[0]) {
        Some(agents[0])
    } else {
        first_mentioned(agents.drop_first(), error)
    }
}

fn find_mentioned(agents: &Vec<String>, error: &String) -> (r: Option<String>)
    ensures
        match r {
            Some(a) => first_mentioned(texts(agents@), error@) == Some(a@),
            None => first_mentioned(texts(agents@), error@) is None,
        },
{
    let ec = chars_of(error.as_str());
    let mut i: usize = 0;
    assert(texts(agents@).skip(0) =~= texts(agents@));
    while i < agents.len()
        invariant
            ec@ == error@,
            i <= agents@.len(),
            first_mentioned(texts(agents@), error@) == first_mentioned(texts(agents@).skip(i as int), error@),
        decreases agents@.len() - i,
    {
        assert(texts(agents@).skip(i as int).drop_first() =~= texts(agents@).skip(i + 1));
        assert(texts(agents@).skip(i as int)[0] == agents@[i as int]@);
        if chars_contain(&ec, &chars_of(agents[i].as_str())) {
            return Some(agents[i].clone());
        }
        i = i + 1;
    }
    None
}

/// What a checkpoint of a run records: the completed agents in the order
/// they completed, the remaining agents, and the outputs by agent.
pub struct ProgressView {
    pub completed: Seq<Seq<char>>,
    pub remaining: Seq<Seq<char>>,
    pub outputs: Seq<(Seq<char>, AgentOutput)>,
}

/// What happens to one agent of a run.
pub enum SwarmEvent {
    /// The agent delivered this output.
    Delivered(AgentOutput),
    /// An agent failed with this error text.
    Failed(Seq<char>),
}

/// The checkpoint of a run of `agents` before anything has come in.
pub open spec fn initial_progress(agents: Seq<Seq<char>>) -> ProgressView {
    ProgressView { completed: Seq::empty(), remaining: agents, outputs: Seq::empty() }
}

/// The checkpoint after one more event: a delivery completes its agent and
/// keeps its output; a failure drops the agent the error names, if any,
/// from the remaining agents.
pub open spec fn progress_step(agents: Seq<Seq<char>>, v: ProgressView, e: SwarmEvent) -> ProgressView {
    match e {
        SwarmEvent::Delivered(o) => ProgressView {
            completed: v.completed.push(o.agent_name@),
            remaining: without(v.remaining, o.agent_name@),
            outputs: put(v.outputs, o.agent_name@, o),
        },
        SwarmEvent::Failed(err) => match first_mentioned(agents, err) {
            Some(a) => ProgressView { completed: v.completed, remaining: without(v.remaining, a), outputs: v.outputs },
            None => v,
        },
    }
}

/// The checkpoint after the events `es`, in order.
pub open spec fn replay(agents: Seq<Seq<char>>, es: Seq<SwarmEvent>) -> ProgressView
    decreases es.len(),
{
    if es.len() == 0 {
        initial_progress(agents)
    } else {
        progress_step(agents, replay(agents, es.drop_last()), es.last())
    }
}

/// How many of the events are deliveries.
pub open spec fn delivered_count(es: Seq<SwarmEvent>) -> nat
    decreases es.len(),
{
    if es.len() == 0 {
        0
    } else {
        delivered_count(es.drop_last()) + if es.last() is Delivered { 1nat } else { 0nat }
    }
}

/// Whether every delivery is by one of `agents`.
pub open spec fn deliveries_by(agents: Seq<Seq<char>>, es: Seq<SwarmEvent>) -> bool {
    forall|i: int| 0 <= i < es.len() ==> match #[trigger] es[i] {
        SwarmEvent::Delivered(o) => agents.contains(o.agent_name@),
        SwarmEvent::Failed(_) => true,
    }
}

/// Whether a checkpoint of a run of `agents` is consistent: the outputs
/// ascend by key, each kept under its own agent's name, one of the run's
/// agents; the agents with outputs are exactly the completed ones; and the
/// remaining agents are agents of the run that have not completed.
pub open spec fn consistent(agents: Seq<Seq<char>>, v: ProgressView) -> bool {
    &&& crate::keyed::ascending(v.outputs)
    &&& forall|i: int| 0 <= i < v.outputs.len() ==> (#[trigger] v.outputs[i]).1.agent_name@ == v.outputs[i].0
        && agents.contains(v.outputs[i].0)
    &&& forall|x: Seq<char>| #[trigger] keys_of(v.outputs).contains(x) <==> v.completed.contains(x)
    &&& forall|x: Seq<char>| #[trigger] v.remaining.contains(x) ==> agents.contains(x) && !v.completed.contains(x)
}

proof fn lemma_delivered_entries(agents: Seq<Seq<char>>, v: ProgressView, o: AgentOutput)
    requires
        consistent(agents, v),
        agents.contains(o.agent_name@),
    ensures
        forall|i: int| 0 <= i < put(v.outputs, o.agent_name@, o).len() ==> (#[trigger] put(v.outputs, o.agent_name@, o)[i]).1.agent_name@
            == put(v.outputs, o.agent_name@, o)[i].0 && agents.contains(put(v.outputs, o.agent_name@, o)[i].0),
{
    let n = o.agent_name@;
    let w = put(v.outputs, n, o);
    crate::keyed::lemma_put_entries(v.outputs, n, o);
    assert forall|i: int| 0 <= i < w.len() implies (#[trigger] w[i]).1.agent_name@ == w[i].0 && agents.contains(w[i].0) by {
        if w[i] != (n, o) {
            let j = choose|j: int| 0 <= j < v.outputs.len() && w[i] == v.outputs[j];
            assert(v.outputs[j].1.agent_name@ == v.outputs[j].0);
        }
    }
}

proof fn lemma_delivered_keys(s: Seq<(Seq<char>, AgentOutput)>, c: Seq<Seq<char>>, o: AgentOutput, x: Seq<char>)
    requires
        keys_of(s).contains(x) <==> c.contains(x),
    ensures
        keys_of(put(s, o.agent_name@, o)).contains(x) <==> c.push(o.agent_name@).contains(x),
{
    let n = o.agent_name@;
    let w = put(s, n, o);
    crate::keyed::lemma_put_entries(s, n, o);
    crate::report::lemma_push_contains(c, n, x);
    if keys_of(w).contains(x) {
        assert(c.push(n).contains(x)) by {
            let i = choose|i: int| 0 <= i < keys_of(w).len() && keys_of(w)[i] == x;
            assert(w[i].0 == x);
            if x != n {
                assert(w[i] != (n, o));
                let j = choose|j: int| 0 <= j < s.len() && w[i] == s[j];
                assert(keys_of(s)[j] == x);
            }
        }
    }
    if c.push(n).contains(x) {
        assert(keys_of(w).contains(x)) by {
            if x == n {
                let i = choose|i: int| 0 <= i < w.len() && w[i] == (n, o);
                assert(keys_of(w)[i] == x);
            } else {
                assert(keys_of(s).contains(x));
                let j = choose|j: int| 0 <= j < keys_of(s).len() && keys_of(s)[j] == x;
                assert(s[j].0 == x);
                let i = choose|i: int| 0 <= i < w.len() && w[i] == #[trigger] s[j];
                assert(keys_of(w)[i] == x);
            }
        }
    }
}

proof fn lemma_delivered_consistent(agents: Seq<Seq<char>>, v: ProgressView, o: AgentOutput)
    requires
        consistent(agents, v),
        agents.contains(o.agent_name@),
    ensures
        consistent(agents, progress_step(agents, v, SwarmEvent::Delivered(o))),
{
    let n = o.agent_name@;
    let w = progress_step(agents, v, SwarmEvent::Delivered(o));
    crate::keyed::lemma_put_ascending(v.outputs, n, o);
    lemma_delivered_entries(agents, v, o);
    assert forall|x: Seq<char>| #[trigger] keys_of(w.outputs).contains(x) <==> w.completed.contains(x) by {
        lemma_delivered_keys(v.outputs, v.completed, o, x);
    }
    assert forall|x: Seq<char>| #[trigger] w.remaining.contains(x) implies agents.contains(x) && !w.completed.contains(x) by {
        law_without_removes(v.remaining, n, x);
        crate::report::lemma_push_contains(v.completed, n, x);
    }
}

/// Every event keeps a checkpoint consistent.
pub proof fn lemma_step_consistent(agents: Seq<Seq<char>>, v: ProgressView, e: SwarmEvent)
    requires
        consistent(agents, v),
        e matches SwarmEvent::Delivered(o) ==> agents.contains(o.agent_name@),
    ensures
        consistent(agents, progress_step(agents, v, e)),
{
    match e {
        SwarmEvent::Delivered(o) => {
            lemma_delivered_consistent(agents, v, o);
        },
        SwarmEvent::Failed(err) => {
            let w = progress_step(agents, v, e);
            match first_mentioned(agents, err) {
                Some(a) => {
                    assert forall|x: Seq<char>| #[trigger] w.remaining.contains(x) implies agents.contains(x) && !w.completed.contains(x) by {
                        law_without_removes(v.remaining, a, x);
                    }
                },
                None => {},
            }
        },
    }
}

/// The checkpoints of a whole run, one per event, where the run's agents
/// are `agents` and every delivery is by one of them: each checkpoint is
/// consistent; the completed agents of each are those of the one before,
/// extended by the delivering agent where the event is a delivery and
/// unchanged otherwise, so that each checkpoint's list is a prefix of the
/// next and as long as the number of deliveries so far.
pub proof fn law_checkpoints_over_run(agents: Seq<Seq<char>>, es: Seq<SwarmEvent>, k: int)
    requires
        deliveries_by(agents, es),
        0 <= k <= es.len(),
    ensures
        consistent(agents, replay(agents, es.take(k))),
        replay(agents, es.take(k)).completed.len() == delivered_count(es.take(k)),
        k < es.len() ==> match es[k] {
            SwarmEvent::Delivered(o) => replay(agents, es.take(k + 1)).completed == replay(agents, es.take(k)).completed.push(o.agent_name@),
            SwarmEvent::Failed(_) => replay(agents, es.take(k + 1)).completed == replay(agents, es.take(k)).completed,
        },
    decreases k,
{
    if k < es.len() {
        assert(es.take(k + 1).drop_last() =~= es.take(k));
        assert(es.take(k + 1).last() == es[k]);
    }
    if k == 0 {
        assert(es.take(0) =~= Seq::<SwarmEvent>::empty());
        let v = initial_progress(agents);
        assert(keys_of(v.outputs) =~= Seq::<Seq<char>>::empty());
    } else {
        law_checkpoints_over_run(agents, es, k - 1);
        assert(es.take(k).drop_last() =~= es.take(k - 1));
        assert(es.take(k).last() == es[k - 1]);
        let e = es[k - 1];
        assert(match e { SwarmEvent::Delivered(o) => agents.contains(o.agent_name@), SwarmEvent::Failed(_) => true });
        lemma_step_consistent(agents, replay(agents, es.take(k - 1)), e);
    }
}

/// The progress of a run whose agents work at the same time: what has
/// come in so far. The checkpoint saved after each completed agent records
/// the completed agents, the remaining agents and the outputs.
pub struct SwarmProgress {
    pub execution_id: String,
    pub query: String,
    pub agents: Vec<String>,
    pub outputs: NameMap<AgentOutput>,
    pub completed_agents: Vec<String>,
    pub remaining_agents: Vec<String>,
    pub failures: Vec<AgentFailure>,
}

impl SwarmProgress {
    /// The checkpoint that the progress records.
    pub open spec fn progress(&self) -> ProgressView {
        ProgressView {
            completed: texts(self.completed_agents@),
            remaining: texts(self.remaining_agents@),
            outputs: self.outputs.view(),
        }
    }

    /// Whether the progress is consistent with the run's agents.
    pub open spec fn is_consistent(&self) -> bool {
        consistent(texts(self.agents@), self.progress())
    }

    /// A run of `agents` on `query` that has nothing in yet: every agent
    /// remains.
    pub fn new(execution_id: String, query: String, agents: Vec<String>) -> (p: SwarmProgress)
        ensures
            p.execution_id == execution_id,
            p.query == query,
            p.agents == agents,
            p.outputs.view().len() == 0,
            p.completed_agents@.len() == 0,
            texts(p.remaining_agents@) == texts(agents@),
            p.failures@.len() == 0,
            p.progress() == initial_progress(texts(agents@)),
            p.is_consistent(),
    {
        let remaining = agents.clone();
        assert(texts(remaining@) =~= texts(agents@));
        let p = SwarmProgress {
            execution_id,
            query,
            agents,
            outputs: NameMap::new(),
            completed_agents: Vec::new(),
            remaining_agents: remaining,
            failures: Vec::new(),
        };
        assert(p.progress().completed =~= Seq::<Seq<char>>::empty());
        assert(p.progress().outputs =~= Seq::<(Seq<char>, AgentOutput)>::empty());
        assert(keys_of(p.progress().outputs) =~= Seq::<Seq<char>>::empty());
        p
    }

    /// An agent of the run delivered: it no longer remains, it is
    /// completed, and its output is kept under its name.
    pub fn record_output(&mut self, output: AgentOutput)
        requires
            old(self).is_consistent(),
            texts(old(self).agents@).contains(output.agent_name@),
        ensures
            final(self).is_consistent(),
            final(self).progress() == progress_step(texts(old(self).agents@), old(self).progress(), SwarmEvent::Delivered(output)),
            final(self).execution_id == old(self).execution_id,
            final(self).query == old(self).query,
            final(self).agents == old(self).agents,
            final(self).failures == old(self).failures,
            texts(final(self).remaining_agents@) == without(texts(old(self).remaining_agents@), output.agent_name@),
            texts(final(self).completed_agents@) == texts(old(self).completed_agents@).push(output.agent_name@),
            final(self).outputs.view() == put(old(self).outputs.view(), output.agent_name@, output),
    {
        let name = output.agent_name.clone();
        self.remaining_agents = remove_all(&self.remaining_agents, &name);
        let ghost before = texts(self.completed_agents@);
        self.completed_agents.push(name.clone());
        assert(texts(self.completed_agents@) =~= before.push(name@));
        self.outputs.insert(name, output);
        proof {
            lemma_step_consistent(texts(self.agents@), old(self).progress(), SwarmEvent::Delivered(output));
        }
    }

    /// An agent failed with `error`. The failure is put down to the first
    /// agent of the run that the error text names, which then no longer
    /// remains; where it names none, to `unknown`.
    pub fn record_failure(&mut self, error: String)
        ensures
            old(self).is_consistent() ==> final(self).is_consistent(),
            final(self).progress() == progress_step(texts(old(self).agents@), old(self).progress(), SwarmEvent::Failed(error@)),
            final(self).execution_id == old(self).execution_id,
            final(self).query == old(self).query,
            final(self).agents == old(self).agents,
            final(self).outputs == old(self).outputs,
            final(self).completed_agents == old(self).completed_agents,
            final(self).failures@.len() == old(self).failures@.len() + 1,
            forall|i: int| 0 <= i < old(self).failures@.len() ==> #[trigger] final(self).failures@[i] == old(self).failures@[i],
            final(self).failures@.last().error == error,
            match first_mentioned(texts(old(self).agents@), error@) {
                Some(a) => {
                    &&& final(self).failures@.last().agent_name@ == a
                    &&& texts(final(self).remaining_agents@) == without(texts(old(self).remaining_agents@), a)
                },
                None => {
                    &&& final(self).failures@.last().agent_name@ == "unknown"@
                    &&& final(self).remaining_agents == old(self).remaining_agents
                },
            },
    {
        match find_mentioned(&self.agents, &error) {
            Some(agent_name) => {
                self.remaining_agents = remove_all(&self.remaining_agents, &agent_name);
                self.failures.push(AgentFailure { agent_name, error });
            },
            None => {
                self.failures.push(AgentFailure { agent_name: String::from_str("unknown"), error });
            },
        }
        proof {
            if old(self).is_consistent() {
                lemma_step_consistent(texts(self.agents@), old(self).progress(), SwarmEvent::Failed(error@));
            }
        }
    }

    /// An agent's task broke down before it could report; the failure is
    /// put down to `unknown`.
    pub fn record_lost_task(&mut self, error: String)
        ensures
            final(self).progress() == old(self).progress(),
            final(self).execution_id == old(self).execution_id,
            final(self).query == old(self).query,
            final(self).agents == old(self).agents,
            final(self).outputs == old(self).outputs,
            final(self).completed_agents == old(self).completed_agents,
            final(self).remaining_agents == old(self).remaining_agents,
            final(self).failures@ == old(self).failures@.push(AgentFailure { agent_name: final(self).failures@.last().agent_name, error }),
            final(self).failures@.last().agent_name@ == "unknown"@,
    {
        self.failures.push(AgentFailure { agent_name: String::from_str("unknown"), error });
    }

    /// The results of the run: the outputs without duplicated contents,
    /// each under its own agent's name, one of the run's agents; the
    /// failures; and 1200 tokens counted per output kept.
    pub fn finish(self, timestamp: String, duration_ms: u64) -> (r: SwarmResults)
        requires
            self.is_consistent(),
            self.outputs.view().len() * 1200 <= u64::MAX,
        ensures
            forall|i: int| 0 <= i < r.agent_outputs.view().len() ==> (#[trigger] r.agent_outputs.view()[i]).1.agent_name@
                == r.agent_outputs.view()[i].0 && texts(self.agents@).contains(r.agent_outputs.view()[i].0),
            forall|i: int, j: int| 0 <= i < j < r.agent_outputs.view().len() ==> (#[trigger] r.agent_outputs.view()[i]).1.content@
                != (#[trigger] r.agent_outputs.view()[j]).1.content@,
            r.total_tokens == r.agent_outputs.view().len() * 1200,
            r.execution_id == self.execution_id,
            r.timestamp == timestamp,
            r.query == self.query,
            r.agent_outputs.view() == dedup_spec(self.outputs.view()),
            r.failed_agents == self.failures,
            r.total_tokens == dedup_spec(self.outputs.view()).len() * 1200,
            r.duration_ms == duration_ms,
    {
        let ghost s = self.outputs.view();
        let ghost agents = texts(self.agents@);
        proof {
            lemma_dedup_len(s);
            crate::report::law_dedup_keeps_one_per_digest(s);
            let d = dedup_spec(s);
            assert forall|i: int| 0 <= i < d.len() implies (#[trigger] d[i]).1.agent_name@ == d[i].0 && agents.contains(d[i].0) by {
                let j = choose|j: int| 0 <= j < s.len() && d[i] == s[j];
                assert(s[j].1.agent_name@ == s[j].0);
            }
            assert forall|i: int, j: int| 0 <= i < j < d.len() implies (#[trigger] d[i]).1.content@ != (#[trigger] d[j]).1.content@ by {
                let h = crate::report::content_hashes(d);
                assert(h[i] == crate::report::sha256_hex(d[i].1.content@));
                assert(h[j] == crate::report::sha256_hex(d[j].1.content@));
            }
        }
        let outputs = crate::report::deduplicate_agent_outputs(self.outputs);
        let kept = outputs.len() as u64;
        SwarmResults {
            execution_id: self.execution_id,
            timestamp,
            query: self.query,
            total_tokens: kept * 1200,
            duration_ms,
            agent_outputs: outputs,
            failed_agents: self.failures,
        }
    }
}

proof fn lemma_dedup_len(s: Seq<(Seq<char>, AgentOutput)>)
    ensures
        dedup_spec(s).len() <= s.len(),
    decreases s.len(),
{
    if s.len() > 0 {
        lemma_dedup_len(s.drop_last());
    }
}

/// The progress of a resumed run, whose remaining agents work one after
/// another.
pub struct ResumeProgress {
    pub execution_id: String,
    pub query: String,
    pub pending_agents: Vec<String>,
    pub outputs: NameMap<AgentOutput>,
}

impl ResumeProgress {
    /// Resumes from a checkpoint: its outputs so far, and its remaining
    /// agents still to run.
    pub fn from_checkpoint(checkpoint: Checkpoint) -> (p: ResumeProgress)
        ensures
            p.execution_id == checkpoint.execution_id,
            p.query == checkpoint.query,
            p.pending_agents == checkpoint.remaining_agents,
            p.outputs == checkpoint.partial_results,
    {
        ResumeProgress {
            execution_id: checkpoint.execution_id,
            query: checkpoint.query,
            pending_agents: checkpoint.remaining_agents,
            outputs: checkpoint.partial_results,
        }
    }

    /// An agent delivered. Returns the completed and remaining agents that
    /// the checkpoint then records: every agent with an output, in key
    /// order, and the checkpoint's remaining agents other than this one.
    pub fn record(&mut self, agent_name: String, output: AgentOutput) -> (lists: (Vec<String>, Vec<String>))
        ensures
            final(self).execution_id == old(self).execution_id,
            final(self).query == old(self).query,
            final(self).pending_agents == old(self).pending_agents,
            final(self).outputs.view() == put(old(self).outputs.view(), agent_name@, output),
            texts(lists.0@) == keys_of(final(self).outputs.view()),
            texts(lists.1@) == without(texts(old(self).pending_agents@), agent_name@),
    {
        let remaining = remove_all(&self.pending_agents, &agent_name);
        self.outputs.insert(agent_name, output);
        let completed = self.outputs.keys();
        (completed, remaining)
    }

    /// The results of the resumed run: the outputs without duplicated
    /// contents, no failures, and 1200 tokens counted per output before
    /// deduplication.
    pub fn finish(self, timestamp: String, duration_ms: u64) -> (r: SwarmResults)
        requires
            self.outputs.view().len() * 1200 <= u64::MAX,
        ensures
            r.execution_id == self.execution_id,
            r.timestamp == timestamp,
            r.query == self.query,
            r.agent_outputs.view() == dedup_spec(self.outputs.view()),
            r.failed_agents@.len() == 0,
            r.total_tokens == self.outputs.view().len() * 1200,
            r.duration_ms == duration_ms,
    {
        let count = self.outputs.len() as u64;
        let outputs = crate::report::deduplicate_agent_outputs(self.outputs);
        SwarmResults {
            execution_id: self.execution_id,
            timestamp,
            query: self.query,
            failed_agents: Vec::new(),
            total_tokens: count * 1200,
            duration_ms,
            agent_outputs: outputs,
        }
    }
}

/// How a run proceeds.
#[derive(Clone, Debug)]
pub enum RunPlan {
    /// Resume the run of the saved checkpoint.
    Resume,
    /// Start a new run under this identifier.
    Fresh { execution_id: String },
}

/// How a run proceeds: a saved checkpoint for the same query is resumed;
/// otherwise the run starts afresh, under the checkpoint's identifier
/// where there is a checkpoint, else under `new_id`.
pub fn plan_run(checkpoint: Option<&Checkpoint>, query: &str, new_id: String) -> (plan: RunPlan)
    ensures
        match checkpoint {
            Some(c) => if c.query@ == query@ {
                plan is Resume
            } else {
                plan matches RunPlan::Fresh { execution_id } && execution_id@ == c.execution_id@
            },
            None => plan matches RunPlan::Fresh { execution_id } && execution_id == new_id,
        },
{
    match checkpoint {
        Some(c) => {
            if chars_equal(&chars_of(c.query.as_str()), &chars_of(query)) {
                RunPlan::Resume
            } else {
                RunPlan::Fresh { execution_id: c.execution_id.clone() }
            }
        },
        None => RunPlan::Fresh { execution_id: new_id },
    }
}

/// The names under which a report lists formats.
pub open spec fn format_names(fs: Seq<ExportFormat>) -> Seq<Seq<char>> {
    fs.map_values(|f: ExportFormat| f.variant_spec())
}

fn format_name_list(formats: &Vec<ExportFormat>) -> (v: Vec<String>)
    ensures
        texts(v@) == format_names(formats@),
{
    let mut v: Vec<String> = Vec::new();
    let mut i: usize = 0;
    while i < formats.len()
        invariant
            i <= formats@.len(),
            texts(v@) == format_names(formats@).take(i as int),
        decreases formats@.len() - i,
    {
        let ghost before = texts(v@);
        let name = String::from_str(formats[i].variant_name());
        v.push(name);
        assert(texts(v@) =~= before.push(formats@[i as int].variant_spec()));
        assert(texts(v@) =~= format_names(formats@).take(i + 1));
        i = i + 1;
    }
    assert(format_names(formats@).take(i as int) =~= format_names(formats@));
    v
}

/// The report of a run: its title, summary, trends, action items, chart,
/// outputs, confidence score and how it was produced.
pub fn generate_report(results: SwarmResults, trends: TrendAnalysis, config: &RuntimeConfig) -> (r: EnhancedReport)
    ensures
        r.title@ == "BioSwarm v3.5 report - "@ + config.query@,
        r.execution_id == results.execution_id,
        r.timestamp == results.timestamp,
        r.summary@ == executive_summary_spec(results, trends),
        r.trends == trends,
        texts(r.action_items@) == action_items_spec(results.agent_outputs.view()),
        r.charts.view().len() == 1,
        r.charts.view()[0].0 == "confidence"@,
        r.charts.view()[0].1@ == confidence_chart(results.agent_outputs.view()),
        r.agent_outputs == results.agent_outputs,
        texts(r.export_formats@) == format_names(config.formats@),
        r.confidence_score == average_confidence_spec(results.agent_outputs.view()),
        r.metadata.query@ == config.query@,
        r.metadata.agent_count == config.agents@.len(),
        texts(r.metadata.formats@) == format_names(config.formats@),
        r.metadata.output_dir@ == config.output_dir@,
        !r.metadata.resumed,
        r.metadata.backend@ == config.backend.name_spec(),
        r.metadata.model@ == config.model@,
        r.metadata.api_base_url@ == config.api_base_url@,
{
    let summary = crate::report::generate_executive_summary(&results, &trends);
    let action_items = crate::report::extract_action_items(&results);
    let charts = crate::report::generate_ascii_charts(&results);
    let confidence_score = crate::report::confidence_score(&results);
    let mut title = String::from_str("BioSwarm v3.5 report - ");
    push_str(&mut title, config.query.as_str());
    EnhancedReport {
        title,
        execution_id: results.execution_id,
        timestamp: results.timestamp,
        summary,
        trends,
        action_items,
        charts,
        agent_outputs: results.agent_outputs,
        export_formats: format_name_list(&config.formats),
        confidence_score,
        metadata: RunMetadata {
            query: config.query.clone(),
            agent_count: config.agents.len(),
            formats: format_name_list(&config.formats),
            output_dir: config.output_dir.clone(),
            resumed: false,
            backend: String::from_str(config.backend.name()),
            model: config.model.clone(),
            api_base_url: config.api_base_url.clone(),
        },
    }
}

/// The name of the file a report is exported to in a format.
pub fn export_file_name(execution_id: &str, format: ExportFormat) -> (name: String)
    ensures
        name@ == "bioswarm_"@ + execution_id@ + "."@ + format.extension_spec(),
{
    let mut name = String::from_str("bioswarm_");
    push_str(&mut name, execution_id);
    push_str(&mut name, ".");
    push_str(&mut name, format.extension());
    name
}

/// An agent's confidence grows by five per level of depth from 70 and
/// stops at 95.
pub proof fn law_agent_confidence(depth: u8)
    ensures
        agent_confidence(depth) == if 70 + 5 * depth <= 95 { 70 + 5 * depth } else { 95 },
        70 <= agent_confidence(depth) <= 95,
{
}

/// The lines that list sources in a prompt, one per source: its title, its
/// address and its snippet, separated by bars, with line breaks between.
pub open spec fn source_lines(v: Seq<SearchResult>) -> Seq<char>
    decreases v.len(),
{
    if v.len() == 0 {
        Seq::<char>::empty()
    } else {
        let line = "- "@ + v.last().title@ + " | "@ + v.last().url@ + " | "@ + v.last().snippet@;
        if v.len() == 1 { line } else { source_lines(v.drop_last()) + "\n"@ + line }
    }
}

proof fn lemma_source_lines(v: Seq<SearchResult>)
    ensures
        join(v.map_values(|r: SearchResult| source_line(r)), "\n"@) == source_lines(v),
    decreases v.len(),
{
    let parts = v.map_values(|r: SearchResult| source_line(r));
    if v.len() == 1 {
        assert(parts[0] == source_line(v[0]));
    } else if v.len() > 1 {
        lemma_source_lines(v.drop_last());
        assert(parts.drop_last() =~= v.drop_last().map_values(|r: SearchResult| source_line(r)));
        assert(parts.last() == source_line(v.last()));
    }
}

/// A prompt lists the first eight sources (all of them where there are
/// fewer), one line each, in order.
pub proof fn law_format_sources(v: Seq<SearchResult>)
    ensures
        format_sources_spec(v) == source_lines(v.take(if v.len() < 8 { v.len() as int } else { 8 })),
{
    lemma_source_lines(v.take(if v.len() < 8 { v.len() as int } else { 8 }));
}

/// Whether `a` occurs somewhere in `text`.
pub open spec fn mentions(text: Seq<char>, a: Seq<char>) -> bool {
    exists|i: int| 0 <= i && i + a.len() <= text.len() && #[trigger] text.subrange(i, i + a.len()) == a
}

/// A failure is put down to an agent that its error mentions, the first of
/// the run's agents that it mentions; to none only where it mentions none.
pub proof fn law_first_mentioned(agents: Seq<Seq<char>>, error: Seq<char>)
    ensures
        match first_mentioned(agents, error) {
            Some(a) => exists|k: int|
                0 <= k < agents.len() && #[trigger] agents[k] == a && mentions(error, a) && forall|j: int|
                    0 <= j < k ==> !mentions(error, #[trigger] agents[j]),
            None => forall|j: int| 0 <= j < agents.len() ==> !mentions(error, #[trigger] agents[j]),
        },
    decreases agents.len(),
{
    if agents.len() > 0 {
        let rest = agents.drop_first();
        law_first_mentioned(rest, error);
        assert(mentions(error, agents[0]) == crate::text::contains(error, agents[0])) by {
            if crate::text::contains(error, agents[0]) {
                let i = choose|i: int| crate::text::occurs_at(error, agents[0], i);
                assert(error.subrange(i, i + agents[0].len()) == agents[0]);
            }
            if mentions(error, agents[0]) {
                let i = choose|i: int| 0 <= i && i + agents[0].len() <= error.len() && #[trigger] error.subrange(i, i + agents[0].len()) == agents[0];
                assert(crate::text::occurs_at(error, agents[0], i));
            }
        }
        if crate::text::contains(error, agents[0]) {
            assert(agents[0] == agents[0]);
        } else {
            match first_mentioned(rest, error) {
                Some(a) => {
                    let k = choose|k: int| 0 <= k < rest.len() && #[trigger] rest[k] == a && mentions(error, a) && forall|j: int|
                        0 <= j < k ==> !mentions(error, #[trigger] rest[j]);
                    assert(agents[k + 1] == a);
                    assert forall|j: int| 0 <= j < k + 1 implies !mentions(error, #[trigger] agents[j]) by {
                        if j > 0 {
                            assert(agents[j] == rest[j - 1]);
                        }
                    }
                },
                None => {
                    assert forall|j: int| 0 <= j < agents.len() implies !mentions(error, #[trigger] agents[j]) by {
                        if j > 0 {
                            assert(agents[j] == rest[j - 1]);
                        }
                    }
                },
            }
        }
    }
}

/// A report is exported to `bioswarm_<run>.<extension>`, the extension
/// being `md`, `json`, `html` or `csv`; reports list each format under its
/// variant's name.
pub proof fn law_export_names(execution_id: Seq<char>, format: ExportFormat, fs: Seq<ExportFormat>)
    ensures
        "bioswarm_"@ + execution_id + "."@ + format.extension_spec() == "bioswarm_"@ + execution_id + "."@ + match format {
            ExportFormat::Markdown => "md"@,
            ExportFormat::Json => "json"@,
            ExportFormat::Html => "html"@,
            ExportFormat::Csv => "csv"@,
        },
        format_names(fs).len() == fs.len(),
        forall|i: int| 0 <= i < fs.len() ==> #[trigger] format_names(fs)[i] == match fs[i] {
            ExportFormat::Markdown => "Markdown"@,
            ExportFormat::Json => "Json"@,
            ExportFormat::Html => "Html"@,
            ExportFormat::Csv => "Csv"@,
        },
{
}

} // verus!
