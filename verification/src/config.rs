//! Export formats, model backends and the resolution of a run's settings
//! from command-line overrides, the environment and a settings file.

use vstd::prelude::*;
use crate::keyed::lookup;
use crate::text::{
    ascii_lower, ascii_upper, decimal, digit_char, chars_blank, chars_equal, chars_of, is_blank, is_space, lemma_trim_lower_upper,
    lemma_trim_padded, lower_chars, trim, trim_chars,
};

verus! {

/// A file format that a report can be exported in.
#[derive(Clone, Copy, Debug, PartialEq, Eq, Structural)]
pub enum ExportFormat {
    Markdown,
    Json,
    Html,
    Csv,
}

impl ExportFormat {
    /// The file extension of the format.
    pub open spec fn extension_spec(self) -> Seq<char> {
        match self {
            ExportFormat::Markdown => "md"@,
            ExportFormat::Json => "json"@,
            ExportFormat::Html => "html"@,
            ExportFormat::Csv => "csv"@,
        }
    }

    /// The lower-case name under which users select the format.
    pub open spec fn name_spec(self) -> Seq<char> {
        match self {
            ExportFormat::Markdown => "markdown"@,
            ExportFormat::Json => "json"@,
            ExportFormat::Html => "html"@,
            ExportFormat::Csv => "csv"@,
        }
    }

    /// The name of the variant, as reports list the formats.
    pub open spec fn variant_spec(self) -> Seq<char> {
        match self {
            ExportFormat::Markdown => "Markdown"@,
            ExportFormat::Json => "Json"@,
            ExportFormat::Html => "Html"@,
            ExportFormat::Csv => "Csv"@,
        }
    }

    /// The file extension of the format.
    pub fn extension(&self) -> (e: &'static str)
        ensures
            e@ == self.extension_spec(),
    {
        match self {
            ExportFormat::Markdown => "md",
            ExportFormat::Json => "json",
            ExportFormat::Html => "html",
            ExportFormat::Csv => "csv",
        }
    }

    /// The lower-case name of the format (its display form).
    pub fn name(&self) -> (n: &'static str)
        ensures
            n@ == self.name_spec(),
    {
        match self {
            ExportFormat::Markdown => "markdown",
            ExportFormat::Json => "json",
            ExportFormat::Html => "html",
            ExportFormat::Csv => "csv",
        }
    }

    /// The name of the variant (its debug form).
    pub fn variant_name(&self) -> (n: &'static str)
        ensures
            n@ == self.variant_spec(),
    {
        match self {
            ExportFormat::Markdown => "Markdown",
            ExportFormat::Json => "Json",
            ExportFormat::Html => "Html",
            ExportFormat::Csv => "Csv",
        }
    }
}

/// The service that generates the agents' text.
#[derive(Clone, Copy, Debug, PartialEq, Eq, Structural)]
pub enum ModelBackend {
    Fireworks,
    Ollama,
    OpenAiCompatible,
    Codex,
}

impl ModelBackend {
    /// The name of the backend (its display form).
    pub open spec fn name_spec(self) -> Seq<char> {
        match self {
            ModelBackend::Fireworks => "fireworks"@,
            ModelBackend::Ollama => "ollama"@,
            ModelBackend::OpenAiCompatible => "openai-compatible"@,
            ModelBackend::Codex => "codex"@,
        }
    }

    /// The environment variable that holds the backend's key by default.
    pub open spec fn key_env_spec(self) -> Seq<char> {
        match self {
            ModelBackend::Fireworks => "FIREWORKS_API_KEY"@,
            ModelBackend::Ollama => "OLLAMA_API_KEY"@,
            ModelBackend::OpenAiCompatible => "OPENAI_API_KEY"@,
            ModelBackend::Codex => "OPENAI_API_KEY"@,
        }
    }

    /// The model that the backend uses by default.
    pub open spec fn model_spec(self) -> Seq<char> {
        match self {
            ModelBackend::Fireworks => "accounts/fireworks/models/kimi-k2-instruct"@,
            ModelBackend::Ollama => "kimi-k2.5:cloud"@,
            ModelBackend::OpenAiCompatible => "gpt-4.1-mini"@,
            ModelBackend::Codex => "gpt-5-codex"@,
        }
    }

    /// The address of the backend's service by default.
    pub open spec fn base_url_spec(self) -> Seq<char> {
        match self {
            ModelBackend::Fireworks => "https://api.fireworks.ai/inference/v1"@,
            ModelBackend::Ollama => "http://127.0.0.1:11434/v1"@,
            ModelBackend::OpenAiCompatible => "https://api.openai.com/v1"@,
            ModelBackend::Codex => "https://api.openai.com/v1"@,
        }
    }

    /// The name of the backend (its display form).
    pub fn name(&self) -> (n: &'static str)
        ensures
            n@ == self.name_spec(),
    {
        match self {
            ModelBackend::Fireworks => "fireworks",
            ModelBackend::Ollama => "ollama",
            ModelBackend::OpenAiCompatible => "openai-compatible",
            ModelBackend::Codex => "codex",
        }
    }

    /// The environment variable that holds the backend's key by default.
    pub fn default_key_env(&self) -> (n: String)
        ensures
            n@ == self.key_env_spec(),
    {
        match self {
            ModelBackend::Fireworks => String::from_str("FIREWORKS_API_KEY"),
            ModelBackend::Ollama => String::from_str("OLLAMA_API_KEY"),
            ModelBackend::OpenAiCompatible => String::from_str("OPENAI_API_KEY"),
            ModelBackend::Codex => String::from_str("OPENAI_API_KEY"),
        }
    }

    /// The model that the backend uses by default.
    pub fn default_model(&self) -> (n: String)
        ensures
            n@ == self.model_spec(),
    {
        match self {
            ModelBackend::Fireworks => String::from_str("accounts/fireworks/models/kimi-k2-instruct"),
            ModelBackend::Ollama => String::from_str("kimi-k2.5:cloud"),
            ModelBackend::OpenAiCompatible => String::from_str("gpt-4.1-mini"),
            ModelBackend::Codex => String::from_str("gpt-5-codex"),
        }
    }

    /// The address of the backend's service by default.
    pub fn default_base_url(&self) -> (n: String)
        ensures
            n@ == self.base_url_spec(),
    {
        match self {
            ModelBackend::Fireworks => String::from_str("https://api.fireworks.ai/inference/v1"),
            ModelBackend::Ollama => String::from_str("http://127.0.0.1:11434/v1"),
            ModelBackend::OpenAiCompatible => String::from_str("https://api.openai.com/v1"),
            ModelBackend::Codex => String::from_str("https://api.openai.com/v1"),
        }
    }
}

/// The formats a run exports when none are chosen.
pub open spec fn default_formats_spec() -> Seq<ExportFormat> {
    seq![ExportFormat::Markdown, ExportFormat::Json, ExportFormat::Html, ExportFormat::Csv]
}

/// The formats a run exports when none are chosen: all four.
pub fn default_formats() -> (v: Vec<ExportFormat>)
    ensures
        v@ == default_formats_spec(),
{
    let v = vec![ExportFormat::Markdown, ExportFormat::Json, ExportFormat::Html, ExportFormat::Csv];
    assert(v@ =~= default_formats_spec());
    v
}

/// The agents a run starts when none are chosen.
pub open spec fn default_agents_spec() -> Seq<Seq<char>> {
    seq![
        "DeepResearcher"@,
        "GapAnalyzer"@,
        "OpportunityScorer"@,
        "CompetitorTracker"@,
        "InnovationScout"@,
        "StrategyFormulator"@,
        "QualityValidator"@,
        "DeploymentTester"@,
        "SentimentAnalyzer"@,
        "PricingIntelligence"@,
        "TalentScout"@,
        "FundingTracker"@,
        "RegulatoryWatcher"@,
        "ClientIntelligence"@,
    ]
}

/// The views of a list of strings.
pub open spec fn texts(v: Seq<String>) -> Seq<Seq<char>> {
    v.map_values(|s: String| s@)
}

/// The agents a run starts when none are chosen: fourteen, in a fixed order.
pub fn default_agents() -> (v: Vec<String>)
    ensures
        texts(v@) == default_agents_spec(),
{
    let v = vec![
        String::from_str("DeepResearcher"),
        String::from_str("GapAnalyzer"),
        String::from_str("OpportunityScorer"),
        String::from_str("CompetitorTracker"),
        String::from_str("InnovationScout"),
        String::from_str("StrategyFormulator"),
        String::from_str("QualityValidator"),
        String::from_str("DeploymentTester"),
        String::from_str("SentimentAnalyzer"),
        String::from_str("PricingIntelligence"),
        String::from_str("TalentScout"),
        String::from_str("FundingTracker"),
        String::from_str("RegulatoryWatcher"),
        String::from_str("ClientIntelligence"),
    ];
    assert(texts(v@) =~= default_agents_spec());
    v
}

/// The backend that `value` names, ignoring surrounding white space and
/// ASCII case.
pub open spec fn parse_backend_spec(value: Seq<char>) -> Option<ModelBackend> {
    let t = ascii_lower(trim(value));
    if t == "fireworks"@ {
        Some(ModelBackend::Fireworks)
    } else if t == "ollama"@ {
        Some(ModelBackend::Ollama)
    } else if t == "openai"@ || t == "openai-compatible"@ || t == "openai_compatible"@ {
        Some(ModelBackend::OpenAiCompatible)
    } else if t == "codex"@ {
        Some(ModelBackend::Codex)
    } else {
        None
    }
}

/// The name of each backend reads back as that backend.
pub proof fn law_parse_backend_name(b: ModelBackend)
    ensures
        parse_backend_spec(b.name_spec()) == Some(b),
{
    reveal_strlit("fireworks");
    reveal_strlit("ollama");
    reveal_strlit("openai");
    reveal_strlit("openai-compatible");
    reveal_strlit("openai_compatible");
    reveal_strlit("codex");
    let n = b.name_spec();
    assert(n.len() > 0);
    assert(!is_space(n[0]) && !is_space(n.last()));
    assert(crate::text::trim_start(n) == n);
    assert(trim(n) == n);
    assert(ascii_lower(n) =~= n);
}

/// Which backend a text names does not depend on the case of its ASCII
/// letters nor on spaces around it.
pub proof fn law_parse_backend_case_and_space(value: Seq<char>)
    ensures
        parse_backend_spec(seq![' '] + ascii_upper(value) + seq![' ']) == parse_backend_spec(value),
{
    lemma_trim_padded(ascii_upper(value));
    lemma_trim_lower_upper(value);
}

fn same_text(a: &Vec<char>, b: &str) -> (r: bool)
    ensures
        r == (a@ == b@),
{
    chars_equal(a, &chars_of(b))
}

/// The backend that `value` names, ignoring surrounding white space and
/// ASCII case; `None` for any other text.
pub fn parse_backend(value: &str) -> (r: Option<ModelBackend>)
    ensures
        r == parse_backend_spec(value@),
{
    let t = lower_chars(&trim_chars(&chars_of(value)));
    if same_text(&t, "fireworks") {
        Some(ModelBackend::Fireworks)
    } else if same_text(&t, "ollama") {
        Some(ModelBackend::Ollama)
    } else if same_text(&t, "openai") || same_text(&t, "openai-compatible") || same_text(
        &t,
        "openai_compatible",
    ) {
        Some(ModelBackend::OpenAiCompatible)
    } else if same_text(&t, "codex") {
        Some(ModelBackend::Codex)
    } else {
        None
    }
}

/// The value of the ASCII digit `c`.
pub open spec fn digit_value(c: char) -> nat {
    (c as u32 - '0' as u32) as nat
}

/// Whether every character of `s` is an ASCII digit.
pub open spec fn all_digits(s: Seq<char>) -> bool {
    forall|i: int| 0 <= i < s.len() ==> '0' <= #[trigger] s[i] <= '9'
}

/// The number that the digits `s` spell.
pub open spec fn digits_value(s: Seq<char>) -> nat
    decreases s.len(),
{
    if s.len() == 0 {
        0
    } else {
        digits_value(s.drop_last()) * 10 + digit_value(s.last())
    }
}

/// The unsigned number that `s` spells, as `str::parse` reads it for an
/// unsigned type whose largest value is `max`: an optional `+`, then one
/// or more digits, with no other characters.
pub open spec fn parse_unsigned_spec(s: Seq<char>, max: nat) -> Option<nat> {
    let body = if s.len() > 0 && s[0] == '+' { s.drop_first() } else { s };
    if body.len() > 0 && all_digits(body) && digits_value(body) <= max {
        Some(digits_value(body))
    } else {
        None
    }
}

proof fn lemma_digits_value_monotone(s: Seq<char>, i: int)
    requires
        0 <= i <= s.len(),
        all_digits(s),
    ensures
        digits_value(s.take(i)) <= digits_value(s),
    decreases s.len() - i,
{
    if i < s.len() {
        lemma_digits_value_monotone(s, i + 1);
        assert(s.take(i + 1).drop_last() =~= s.take(i));
        assert('0' <= s[i] <= '9');
    } else {
        assert(s.take(i) =~= s);
    }
}

/// The unsigned number that `s` spells, if it spells one no larger than
/// `max`.
pub fn parse_unsigned(s: &str, max: u64) -> (r: Option<u64>)
    requires
        max <= u32::MAX,
    ensures
        match r {
            Some(n) => parse_unsigned_spec(s@, max as nat) == Some(n as nat),
            None => parse_unsigned_spec(s@, max as nat) is None,
        },
{
    let cs = chars_of(s);
    let start: usize = if cs.len() > 0 && cs[0] == '+' { 1 } else { 0 };
    let ghost body = if cs@.len() > 0 && cs@[0] == '+' { cs@.drop_first() } else { cs@ };
    assert(body =~= cs@.skip(start as int));
    if start >= cs.len() {
        return None;
    }
    let mut value: u64 = 0;
    let mut i: usize = start;
    while i < cs.len()
        invariant
            start <= i <= cs.len(),
            cs@ == s@,
            body == (if s@.len() > 0 && s@[0] == '+' { s@.drop_first() } else { s@ }),
            max <= u32::MAX,
            body == cs@.skip(start as int),
            all_digits(body.take(i - start)),
            value == digits_value(body.take(i - start)),
            value <= max,
        decreases cs.len() - i,
    {
        let c = cs[i];
        if c < '0' || c > '9' {
            assert(body[i - start] == c);
            assert(!all_digits(body));
            return None;
        }
        let d = (c as u32 - '0' as u32) as u64;
        let ghost k = i - start;
        assert(body.take(k + 1).drop_last() =~= body.take(k));
        assert(body.take(k + 1).last() == c);
        assert(d == digit_value(c));
        value = value * 10 + d;
        assert(value == digits_value(body.take(k + 1)));
        assert(all_digits(body.take(k + 1))) by {
            assert forall|j: int| 0 <= j < k + 1 implies '0' <= #[trigger] body.take(k + 1)[j] <= '9' by {
                if j < k {
                    assert(body.take(k + 1)[j] == body.take(k)[j]);
                }
            }
        }
        if value > max {
            proof {
                if all_digits(body) {
                    lemma_digits_value_monotone(body, k + 1);
                }
            }
            return None;
        }
        i = i + 1;
    }
    assert(body.take(i - start) =~= body);
    Some(value)
}

/// The settings that may be given in the settings file.
#[derive(Clone, Debug)]
pub struct FileConfig {
    pub fireworks_api_key: Option<String>,
    pub exa_api_key: Option<String>,
    pub rate_limit_rpm: Option<u32>,
    pub database_path: Option<String>,
    pub output_dir: Option<String>,
    pub depth: Option<u8>,
    pub agents: Option<Vec<String>>,
    pub formats: Option<Vec<ExportFormat>>,
    pub backend: Option<ModelBackend>,
    pub model: Option<String>,
    pub api_base_url: Option<String>,
    pub api_key_env: Option<String>,
}

/// The settings of one run, once resolved.
#[derive(Clone, Debug)]
pub struct RuntimeConfig {
    pub fireworks_api_key: String,
    pub exa_api_key: Option<String>,
    pub rate_limit_rpm: u32,
    pub database_path: String,
    pub output_dir: String,
    pub depth: u8,
    pub agents: Vec<String>,
    pub formats: Vec<ExportFormat>,
    pub query: String,
    pub backend: ModelBackend,
    pub model: String,
    pub api_base_url: String,
    pub api_key_env: String,
}

/// The command line: an optional settings file and a command.
#[derive(Clone, Debug)]
pub struct Cli {
    pub config: Option<String>,
    pub command: Commands,
}

/// The commands of the command line.
#[derive(Clone, Debug)]
pub enum Commands {
    Run {
        query: String,
        output_dir: Option<String>,
        database_path: Option<String>,
        depth: u8,
        formats: Vec<ExportFormat>,
        agents: Option<Vec<String>>,
        backend: Option<ModelBackend>,
        model: Option<String>,
        api_base_url: Option<String>,
        api_key_env: Option<String>,
    },
    Resume { execution_id: Option<String> },
    Export { execution_id: String, formats: Vec<ExportFormat>, output_dir: Option<String> },
    History { limit: usize },
    Status,
}

/// Settings given on the command line, which take precedence over all
/// others.
#[derive(Clone, Debug)]
pub struct ConfigOverrides {
    pub output_dir: Option<String>,
    pub database_path: Option<String>,
    pub depth: Option<u8>,
    pub formats: Option<Vec<ExportFormat>>,
    pub agents: Option<Vec<String>>,
    pub backend: Option<ModelBackend>,
    pub model: Option<String>,
    pub api_base_url: Option<String>,
    pub api_key_env: Option<String>,
}

/// A snapshot of the process environment: names and values.
#[derive(Clone, Debug)]
pub struct Environment {
    pub vars: Vec<(String, String)>,
}

impl Environment {
    /// The variables as text pairs, in order.
    pub open spec fn view(&self) -> Seq<(Seq<char>, Seq<char>)> {
        self.vars@.map_values(|p: (String, String)| (p.0@, p.1@))
    }

    /// The value of the first variable called `name`, if any.
    pub fn var(&self, name: &str) -> (r: Option<String>)
        ensures
            opt_text(r) == lookup(self.view(), name@),
    {
        let n = chars_of(name);
        let mut i: usize = 0;
        assert(self.view().skip(0) =~= self.view());
        while i < self.vars.len()
            invariant
                n@ == name@,
                i <= self.vars@.len(),
                lookup(self.view(), name@) == lookup(self.view().skip(i as int), name@),
            decreases self.vars@.len() - i,
        {
            assert(self.view().skip(i as int).drop_first() =~= self.view().skip(i + 1));
            if chars_equal(&chars_of(self.vars[i].0.as_str()), &n) {
                return Some(self.vars[i].1.clone());
            }
            i = i + 1;
        }
        None
    }
}

/// The view of an optional string.
pub open spec fn opt_text(o: Option<String>) -> Option<Seq<char>> {
    match o {
        Some(s) => Some(s@),
        None => None,
    }
}

/// `a` if there is one, else `b`.
pub open spec fn either<T>(a: Option<T>, b: Option<T>) -> Option<T> {
    if a is Some { a } else { b }
}

/// The value of `o`, or `d` where there is none.
pub open spec fn or_else<T>(o: Option<T>, d: T) -> T {
    match o {
        Some(v) => v,
        None => d,
    }
}

/// `o` where it holds text that is not blank.
pub open spec fn non_blank(o: Option<Seq<char>>) -> Option<Seq<char>> {
    match o {
        Some(s) => if is_blank(s) { None } else { Some(s) },
        None => None,
    }
}

/// A text setting of the settings file, where there is a file.
pub open spec fn file_text(f: Option<FileConfig>, pick: spec_fn(FileConfig) -> Option<String>) -> Option<Seq<char>> {
    match f {
        Some(c) => opt_text(pick(c)),
        None => None,
    }
}

/// A setting of the settings file, where there is a file.
pub open spec fn file_value<T>(f: Option<FileConfig>, pick: spec_fn(FileConfig) -> Option<T>) -> Option<T> {
    match f {
        Some(c) => pick(c),
        None => None,
    }
}

/// The backend: the command line's, else the one that `BIOSWARM_BACKEND`
/// names, else the file's, else Fireworks.
pub open spec fn resolved_backend(o: ConfigOverrides, env: Seq<(Seq<char>, Seq<char>)>, f: Option<FileConfig>) -> ModelBackend {
    let from_env = match lookup(env, "BIOSWARM_BACKEND"@) {
        Some(v) => parse_backend_spec(v),
        None => None,
    };
    or_else(either(o.backend, either(from_env, file_value(f, |c: FileConfig| c.backend))), ModelBackend::Fireworks)
}

/// The variable that holds the key: the command line's, else
/// `BIOSWARM_API_KEY_ENV`, else the file's, else the backend's default.
pub open spec fn resolved_key_env(o: ConfigOverrides, env: Seq<(Seq<char>, Seq<char>)>, f: Option<FileConfig>) -> Seq<char> {
    or_else(
        either(opt_text(o.api_key_env), either(lookup(env, "BIOSWARM_API_KEY_ENV"@), file_text(f, |c: FileConfig| c.api_key_env))),
        resolved_backend(o, env, f).key_env_spec(),
    )
}

/// The key: the variable's value, else the file's key where the variable
/// is `FIREWORKS_API_KEY`, else `ollama` for Ollama and empty otherwise.
pub open spec fn resolved_key(o: ConfigOverrides, env: Seq<(Seq<char>, Seq<char>)>, f: Option<FileConfig>) -> Seq<char> {
    let name = resolved_key_env(o, env, f);
    let from_file = if name == "FIREWORKS_API_KEY"@ { file_text(f, |c: FileConfig| c.fireworks_api_key) } else { None };
    or_else(
        either(lookup(env, name), from_file),
        if resolved_backend(o, env, f) == ModelBackend::Ollama { "ollama"@ } else { Seq::<char>::empty() },
    )
}

/// Whether the key is required and missing.
pub open spec fn key_missing(o: ConfigOverrides, env: Seq<(Seq<char>, Seq<char>)>, f: Option<FileConfig>) -> bool {
    resolved_backend(o, env, f) != ModelBackend::Ollama && is_blank(resolved_key(o, env, f))
}

/// The search key: `EXA_API_KEY` if not blank, else the file's if not blank.
pub open spec fn resolved_exa_key(env: Seq<(Seq<char>, Seq<char>)>, f: Option<FileConfig>) -> Option<Seq<char>> {
    either(non_blank(lookup(env, "EXA_API_KEY"@)), non_blank(file_text(f, |c: FileConfig| c.exa_api_key)))
}

/// A number read from the environment, where the variable is set and
/// spells one no larger than `max`.
pub open spec fn env_number(env: Seq<(Seq<char>, Seq<char>)>, name: Seq<char>, max: nat) -> Option<nat> {
    match lookup(env, name) {
        Some(v) => parse_unsigned_spec(v, max),
        None => None,
    }
}

/// The rate limit: `RATE_LIMIT_RPM`, else the file's, else 60.
pub open spec fn resolved_rate(env: Seq<(Seq<char>, Seq<char>)>, f: Option<FileConfig>) -> nat {
    match env_number(env, "RATE_LIMIT_RPM"@, u32::MAX as nat) {
        Some(n) => n,
        None => match file_value(f, |c: FileConfig| c.rate_limit_rpm) {
            Some(n) => n as nat,
            None => 60,
        },
    }
}

/// The depth: the command line's, else `BIOSWARM_DEPTH`, else the
/// file's, else 2.
pub open spec fn resolved_depth(o: ConfigOverrides, env: Seq<(Seq<char>, Seq<char>)>, f: Option<FileConfig>) -> nat {
    match o.depth {
        Some(d) => d as nat,
        None => match env_number(env, "BIOSWARM_DEPTH"@, u8::MAX as nat) {
            Some(n) => n,
            None => match file_value(f, |c: FileConfig| c.depth) {
                Some(d) => d as nat,
                None => 2,
            },
        },
    }
}

/// A path or name: the command line's, else the variable's, else the
/// file's, else `d`.
pub open spec fn resolved_text(over: Option<String>, env: Seq<(Seq<char>, Seq<char>)>, var: Seq<char>, file: Option<Seq<char>>, d: Seq<char>) -> Seq<char> {
    or_else(either(opt_text(over), either(lookup(env, var), file)), d)
}

/// Where neither the command line, nor `BIOSWARM_API_KEY_ENV`, nor the
/// settings file names the key variable, each backend reads its key from
/// its own variable: Fireworks from `FIREWORKS_API_KEY`, Ollama from
/// `OLLAMA_API_KEY`, the OpenAI-compatible and Codex backends from
/// `OPENAI_API_KEY`. Where that variable is set, its value is the key, and
/// a key that is not blank is not missing.
pub proof fn law_default_key_variable(o: ConfigOverrides, env: Seq<(Seq<char>, Seq<char>)>, f: Option<FileConfig>)
    requires
        o.api_key_env is None,
        lookup(env, "BIOSWARM_API_KEY_ENV"@) is None,
        f is None || f.unwrap().api_key_env is None,
    ensures
        resolved_key_env(o, env, f) == match resolved_backend(o, env, f) {
            ModelBackend::Fireworks => "FIREWORKS_API_KEY"@,
            ModelBackend::Ollama => "OLLAMA_API_KEY"@,
            ModelBackend::OpenAiCompatible => "OPENAI_API_KEY"@,
            ModelBackend::Codex => "OPENAI_API_KEY"@,
        },
        forall|k: Seq<char>|
            #[trigger] lookup(env, resolved_key_env(o, env, f)) == Some(k) ==> resolved_key(o, env, f) == k && (!is_blank(k)
                ==> !key_missing(o, env, f)),
{
    assert(file_text(f, |c: FileConfig| c.api_key_env) is None);
}

/// Where nothing chooses the model or the service address, each backend
/// uses its own: Fireworks `accounts/fireworks/models/kimi-k2-instruct` at
/// `https://api.fireworks.ai/inference/v1`, Ollama `kimi-k2.5:cloud` at
/// `http://127.0.0.1:11434/v1`, the OpenAI-compatible backend
/// `gpt-4.1-mini` and Codex `gpt-5-codex`, both at
/// `https://api.openai.com/v1`.
pub proof fn law_backend_defaults(o: ConfigOverrides, env: Seq<(Seq<char>, Seq<char>)>, f: Option<FileConfig>)
    requires
        o.model is None,
        o.api_base_url is None,
        lookup(env, "BIOSWARM_MODEL"@) is None,
        lookup(env, "BIOSWARM_API_BASE_URL"@) is None,
        f is None || (f.unwrap().model is None && f.unwrap().api_base_url is None),
    ensures
        resolved_text(o.model, env, "BIOSWARM_MODEL"@, file_text(f, |c: FileConfig| c.model), resolved_backend(o, env, f).model_spec())
            == match resolved_backend(o, env, f) {
            ModelBackend::Fireworks => "accounts/fireworks/models/kimi-k2-instruct"@,
            ModelBackend::Ollama => "kimi-k2.5:cloud"@,
            ModelBackend::OpenAiCompatible => "gpt-4.1-mini"@,
            ModelBackend::Codex => "gpt-5-codex"@,
        },
        resolved_text(o.api_base_url, env, "BIOSWARM_API_BASE_URL"@, file_text(f, |c: FileConfig| c.api_base_url), resolved_backend(o, env, f).base_url_spec())
            == match resolved_backend(o, env, f) {
            ModelBackend::Fireworks => "https://api.fireworks.ai/inference/v1"@,
            ModelBackend::Ollama => "http://127.0.0.1:11434/v1"@,
            ModelBackend::OpenAiCompatible => "https://api.openai.com/v1"@,
            ModelBackend::Codex => "https://api.openai.com/v1"@,
        },
{
    assert(file_text(f, |c: FileConfig| c.model) is None);
    assert(file_text(f, |c: FileConfig| c.api_base_url) is None);
}

/// A text setting comes from the command line where given there, else
/// from its environment variable where set, else from the settings file,
/// else it is the default.
pub proof fn law_setting_precedence(over: Option<String>, env: Seq<(Seq<char>, Seq<char>)>, var: Seq<char>, file: Option<Seq<char>>, d: Seq<char>)
    ensures
        over is Some ==> resolved_text(over, env, var, file, d) == over.unwrap()@,
        over is None && lookup(env, var) is Some ==> resolved_text(over, env, var, file, d) == lookup(env, var).unwrap(),
        over is None && lookup(env, var) is None && file is Some ==> resolved_text(over, env, var, file, d) == file.unwrap(),
        over is None && lookup(env, var) is None && file is None ==> resolved_text(over, env, var, file, d) == d,
{
}

/// Without a settings file, and with none of the variables that choose
/// them set, a run uses the Fireworks backend (unless the command line
/// chooses one), 60 requests a minute and depth 2 (unless the command line
/// chooses one).
pub proof fn law_settings_defaults(o: ConfigOverrides, env: Seq<(Seq<char>, Seq<char>)>)
    requires
        lookup(env, "BIOSWARM_BACKEND"@) is None,
        lookup(env, "RATE_LIMIT_RPM"@) is None,
        lookup(env, "BIOSWARM_DEPTH"@) is None,
    ensures
        resolved_backend(o, env, None) == match o.backend {
            Some(b) => b,
            None => ModelBackend::Fireworks,
        },
        resolved_rate(env, None) == 60,
        resolved_depth(o, env, None) == match o.depth {
            Some(d) => d as nat,
            None => 2,
        },
{
}

/// A backend is named, after trimming and in small letters, by exactly
/// these spellings: `fireworks`; `ollama`; `openai`, `openai-compatible` or
/// `openai_compatible`; `codex`. Any other text names none.
pub proof fn law_parse_backend_spellings(value: Seq<char>)
    ensures
        parse_backend_spec(value) == {
            let t = ascii_lower(trim(value));
            if t == "fireworks"@ {
                Some(ModelBackend::Fireworks)
            } else if t == "ollama"@ {
                Some(ModelBackend::Ollama)
            } else if t == "openai"@ || t == "openai-compatible"@ || t == "openai_compatible"@ {
                Some(ModelBackend::OpenAiCompatible)
            } else if t == "codex"@ {
                Some(ModelBackend::Codex)
            } else {
                None::<ModelBackend>
            }
        },
{
}

proof fn lemma_digit_round_trip(k: nat)
    requires
        k < 10,
    ensures
        digit_value(digit_char(k)) == k,
        '0' <= digit_char(k) <= '9',
{
    assert('0' as u32 == 48);
    if k == 0 {} else if k == 1 {} else if k == 2 {} else if k == 3 {} else if k == 4 {}
    else if k == 5 {} else if k == 6 {} else if k == 7 {} else if k == 8 {} else {}
}

proof fn lemma_decimal_digits(n: nat)
    ensures
        decimal(n).len() > 0,
        all_digits(decimal(n)),
        digits_value(decimal(n)) == n,
    decreases n,
{
    lemma_digit_round_trip(n % 10);
    if n < 10 {
        assert(n % 10 == n);
        let d = decimal(n);
        assert(d.drop_last() =~= Seq::<char>::empty());
        assert(digits_value(d.drop_last()) == 0);
        assert(d.last() == digit_char(n));
        assert(digits_value(d) == digits_value(d.drop_last()) * 10 + digit_value(d.last()));
    } else {
        lemma_decimal_digits(n / 10);
        let d = decimal(n);
        assert(n == (n / 10) * 10 + n % 10);
        assert(digits_value(d) == digits_value(d.drop_last()) * 10 + digit_value(d.last()));
        assert(d.drop_last() =~= decimal(n / 10));
        assert(d.last() == digit_char(n % 10));
        assert forall|i: int| 0 <= i < d.len() implies '0' <= #[trigger] d[i] <= '9' by {
            if i < d.len() - 1 {
                assert(d[i] == decimal(n / 10)[i]);
            }
        }
    }
}

/// Reading back the decimal rendering of a number gives the number, where
/// it is no larger than the largest value allowed, and nothing otherwise.
pub proof fn law_parse_reads_decimal(n: nat, max: nat)
    ensures
        parse_unsigned_spec(decimal(n), max) == if n <= max { Some(n) } else { None::<nat> },
{
    lemma_decimal_digits(n);
    assert('0' <= decimal(n)[0] <= '9');
}

/// Why settings were refused.
#[derive(Clone, Debug)]
pub enum ConfigError {
    /// The backend needs a key and the variable named holds none.
    MissingApiKey { env_name: String },
    /// The rate limit is zero.
    ZeroRateLimit,
    /// The depth is not between 1 and 5.
    DepthOutOfRange,
}

impl ConfigError {
    /// The message the error is reported with.
    pub open spec fn message_spec(&self) -> Seq<char> {
        match self {
            ConfigError::MissingApiKey { env_name } => env_name@ + " is required. Add it to .env or bioswarm.toml"@,
            ConfigError::ZeroRateLimit => "RATE_LIMIT_RPM must be greater than 0"@,
            ConfigError::DepthOutOfRange => "depth must be between 1 and 5"@,
        }
    }

    /// The message the error is reported with.
    pub fn message(&self) -> (m: String)
        ensures
            m@ == self.message_spec(),
    {
        match self {
            ConfigError::MissingApiKey { env_name } => {
                let mut m = env_name.clone();
                m.append(" is required. Add it to .env or bioswarm.toml");
                m
            },
            ConfigError::ZeroRateLimit => String::from_str("RATE_LIMIT_RPM must be greater than 0"),
            ConfigError::DepthOutOfRange => String::from_str("depth must be between 1 and 5"),
        }
    }
}

fn pick_text(first: Option<String>, second: Option<String>) -> (r: Option<String>)
    ensures
        opt_text(r) == either(opt_text(first), opt_text(second)),
{
    match first {
        Some(v) => Some(v),
        None => second,
    }
}

fn text_or(o: Option<String>, d: String) -> (r: String)
    ensures
        r@ == or_else(opt_text(o), d@),
{
    match o {
        Some(v) => v,
        None => d,
    }
}

fn keep_non_blank(o: Option<String>) -> (r: Option<String>)
    ensures
        opt_text(r) == non_blank(opt_text(o)),
{
    match o {
        Some(v) => {
            if chars_blank(&chars_of(v.as_str())) {
                None
            } else {
                Some(v)
            }
        },
        None => None,
    }
}

impl RuntimeConfig {
    /// Resolves the settings of a run. Each setting is taken from the first
    /// source that has it: the command line, the environment, the settings
    /// file, a default. The key is then required unless the backend is
    /// Ollama, the rate limit must not be zero, and the depth must lie
    /// between 1 and 5; the first of these checks that fails is the error.
    pub fn resolve(query: String, overrides: ConfigOverrides, env: &Environment, file: Option<FileConfig>) -> (r: Result<RuntimeConfig, ConfigError>)
        ensures
            match r {
                Err(ConfigError::MissingApiKey { env_name }) => {
                    &&& key_missing(overrides, env.view(), file)
                    &&& env_name@ == resolved_key_env(overrides, env.view(), file)
                },
                Err(ConfigError::ZeroRateLimit) => {
                    &&& !key_missing(overrides, env.view(), file)
                    &&& resolved_rate(env.view(), file) == 0
                },
                Err(ConfigError::DepthOutOfRange) => {
                    &&& !key_missing(overrides, env.view(), file)
                    &&& resolved_rate(env.view(), file) != 0
                    &&& !(1 <= resolved_depth(overrides, env.view(), file) <= 5)
                },
                Ok(c) => {
                    &&& !key_missing(overrides, env.view(), file)
                    &&& resolved_rate(env.view(), file) != 0
                    &&& 1 <= resolved_depth(overrides, env.view(), file) <= 5
                    &&& c.query == query
                    &&& c.backend == resolved_backend(overrides, env.view(), file)
                    &&& c.api_key_env@ == resolved_key_env(overrides, env.view(), file)
                    &&& c.fireworks_api_key@ == resolved_key(overrides, env.view(), file)
                    &&& opt_text(c.exa_api_key) == resolved_exa_key(env.view(), file)
                    &&& c.rate_limit_rpm == resolved_rate(env.view(), file)
                    &&& c.database_path@ == resolved_text(overrides.database_path, env.view(), "DATABASE_PATH"@, file_text(file, |f: FileConfig| f.database_path), "bioswarm.db"@)
                    &&& c.output_dir@ == resolved_text(overrides.output_dir, env.view(), "OUTPUT_DIR"@, file_text(file, |f: FileConfig| f.output_dir), "outputs"@)
                    &&& c.depth == resolved_depth(overrides, env.view(), file)
                    &&& texts(c.agents@) == or_else(either(
                        match overrides.agents { Some(a) => Some(texts(a@)), None => None },
                        match file_value(file, |f: FileConfig| f.agents) { Some(a) => Some(texts(a@)), None => None },
                    ), default_agents_spec())
                    &&& c.formats@ == or_else(either(
                        match overrides.formats { Some(a) => Some(a@), None => None },
                        match file_value(file, |f: FileConfig| f.formats) { Some(a) => Some(a@), None => None },
                    ), default_formats_spec())
                    &&& c.model@ == resolved_text(overrides.model, env.view(), "BIOSWARM_MODEL"@, file_text(file, |f: FileConfig| f.model), resolved_backend(overrides, env.view(), file).model_spec())
                    &&& c.api_base_url@ == resolved_text(overrides.api_base_url, env.view(), "BIOSWARM_API_BASE_URL"@, file_text(file, |f: FileConfig| f.api_base_url), resolved_backend(overrides, env.view(), file).base_url_spec())
                },
            },
    {
        let ghost o = overrides;
        let ghost ev = env.view();
        let ghost fc = file;
        // backend
        let from_env_backend = match env.var("BIOSWARM_BACKEND") {
            Some(v) => parse_backend(v.as_str()),
            None => None,
        };
        let file_backend = match &file { Some(f) => f.backend, None => None };
        let backend = match overrides.backend {
            Some(b) => b,
            None => match from_env_backend {
                Some(b) => b,
                None => match file_backend {
                    Some(b) => b,
                    None => ModelBackend::Fireworks,
                },
            },
        };
        assert(backend == resolved_backend(o, ev, fc));
        // key variable
        let file_key_env = match &file { Some(f) => f.api_key_env.clone(), None => None };
        let api_key_env = text_or(
            pick_text(overrides.api_key_env, pick_text(env.var("BIOSWARM_API_KEY_ENV"), file_key_env)),
            backend.default_key_env(),
        );
        assert(api_key_env@ == resolved_key_env(o, ev, fc));
        // key
        let file_key = if same_text(&chars_of(api_key_env.as_str()), "FIREWORKS_API_KEY") {
            match &file { Some(f) => f.fireworks_api_key.clone(), None => None }
        } else {
            None
        };
        let fallback_key = if backend == ModelBackend::Ollama { String::from_str("ollama") } else { String::new() };
        let fireworks_api_key = text_or(pick_text(env.var(api_key_env.as_str()), file_key), fallback_key);
        assert(fireworks_api_key@ == resolved_key(o, ev, fc));
        if backend != ModelBackend::Ollama && chars_blank(&chars_of(fireworks_api_key.as_str())) {
            return Err(ConfigError::MissingApiKey { env_name: api_key_env });
        }
        // search key
        let file_exa = match &file { Some(f) => f.exa_api_key.clone(), None => None };
        let exa_api_key = pick_text(keep_non_blank(env.var("EXA_API_KEY")), keep_non_blank(file_exa));
        // rate limit
        let env_rate = match env.var("RATE_LIMIT_RPM") {
            Some(v) => parse_unsigned(v.as_str(), 4294967295u64),
            None => None,
        };
        let rate_limit_rpm: u32 = match env_rate {
            Some(n) => n as u32,
            None => match &file {
                Some(f) => match f.rate_limit_rpm {
                    Some(n) => n,
                    None => 60,
                },
                None => 60,
            },
        };
        assert(rate_limit_rpm == resolved_rate(ev, fc));
        if rate_limit_rpm == 0 {
            return Err(ConfigError::ZeroRateLimit);
        }
        // paths
        let file_db = match &file { Some(f) => f.database_path.clone(), None => None };
        let database_path = text_or(
            pick_text(overrides.database_path, pick_text(env.var("DATABASE_PATH"), file_db)),
            String::from_str("bioswarm.db"),
        );
        let file_out = match &file { Some(f) => f.output_dir.clone(), None => None };
        let output_dir = text_or(
            pick_text(overrides.output_dir, pick_text(env.var("OUTPUT_DIR"), file_out)),
            String::from_str("outputs"),
        );
        // depth
        let env_depth = match env.var("BIOSWARM_DEPTH") {
            Some(v) => parse_unsigned(v.as_str(), 255u64),
            None => None,
        };
        let depth: u8 = match overrides.depth {
            Some(d) => d,
            None => match env_depth {
                Some(n) => n as u8,
                None => match &file {
                    Some(f) => match f.depth {
                        Some(d) => d,
                        None => 2,
                    },
                    None => 2,
                },
            },
        };
        assert(depth == resolved_depth(o, ev, fc));
        if !(1 <= depth && depth <= 5) {
            return Err(ConfigError::DepthOutOfRange);
        }
        // agents and formats
        let file_agents = match &file { Some(f) => f.agents.clone(), None => None };
        let agents = match overrides.agents {
            Some(a) => a,
            None => match file_agents {
                Some(a) => a,
                None => default_agents(),
            },
        };
        let file_formats = match &file { Some(f) => f.formats.clone(), None => None };
        let formats = match overrides.formats {
            Some(a) => a,
            None => match file_formats {
                Some(a) => a,
                None => default_formats(),
            },
        };
        // model and service
        let file_model = match &file { Some(f) => f.model.clone(), None => None };
        let model = text_or(
            pick_text(overrides.model, pick_text(env.var("BIOSWARM_MODEL"), file_model)),
            backend.default_model(),
        );
        let file_url = match &file { Some(f) => f.api_base_url.clone(), None => None };
        let api_base_url = text_or(
            pick_text(overrides.api_base_url, pick_text(env.var("BIOSWARM_API_BASE_URL"), file_url)),
            backend.default_base_url(),
        );
        Ok(RuntimeConfig {
            fireworks_api_key,
            exa_api_key,
            rate_limit_rpm,
            database_path,
            output_dir,
            depth,
            agents,
            formats,
            query,
            backend,
            model,
            api_base_url,
            api_key_env,
        })
    }
}

} // verus!
