//! What may be shown to a model: sensitive files and lines, token budgets, context records.
use vstd::prelude::*;

use crate::text::{chars_of, contains, ends_with, seq_contains, seq_ends_with, spec_to_lowercase, to_lowercase};

verus! {

/// Files whose content is never quoted: environment files, keys and credential stores.
pub open spec fn spec_sensitive_path(path: Seq<char>) -> bool {
    let lower = spec_to_lowercase(path);
    seq_ends_with(lower, ".env"@) || seq_contains(lower, "private_key"@) || seq_ends_with(lower, ".pem"@)
        || seq_ends_with(lower, ".key"@) || seq_contains(lower, "credential"@) || seq_contains(lower, "secret"@)
}

/// Whether the file at `path` must never be quoted.
pub fn sensitive_path(path: &str) -> (res: bool)
    ensures
        res == spec_sensitive_path(path@),
{
    let lower = to_lowercase(path);
    let l = chars_of(lower.as_str());
    ends_with(&l, &chars_of(".env")) || contains(&l, &chars_of("private_key")) || ends_with(&l, &chars_of(".pem"))
        || ends_with(&l, &chars_of(".key")) || contains(&l, &chars_of("credential")) || contains(&l, &chars_of("secret"))
}

/// Names of secrets whose assignment is hidden.
pub open spec fn sensitive_names() -> Seq<Seq<char>> {
    seq!["api_key"@, "apikey"@, "private_key"@, "client_secret"@, "password"@, "passwd"@, "access_token"@, "auth_token"@]
}

/// A line that assigns (`=` or `:`) something whose lowercase form names a secret.
pub open spec fn spec_redacted(line: Seq<char>) -> bool {
    (line.contains('=') || line.contains(':')) && exists|k: int| 0 <= k < sensitive_names().len()
        && seq_contains(spec_to_lowercase(line), #[trigger] sensitive_names()[k])
}

/// What replaces a redacted line.
pub open spec fn redaction_marker() -> Seq<char> {
    "[REDACTED SENSITIVE ASSIGNMENT]"@
}

fn has_char(s: &Vec<char>, c: char) -> (res: bool)
    ensures
        res == s@.contains(c),
{
    let mut i: usize = 0;
    while i < s.len()
        invariant
            i <= s@.len(),
            forall|j: int| 0 <= j < i ==> s@[j] != c,
        decreases s.len() - i,
    {
        if s[i] == c {
            assert(s@[i as int] == c);
            return true;
        }
        i = i + 1;
    }
    false
}

/// The line itself, or the redaction marker when it assigns a secret.
pub fn redact_sensitive_line(line: &str) -> (res: String)
    ensures
        res@ == if spec_redacted(line@) { redaction_marker() } else { line@ },
{
    let chars = chars_of(line);
    let lower = to_lowercase(line);
    let l = chars_of(lower.as_str());
    let assignment = has_char(&chars, '=') || has_char(&chars, ':');
    let names: Vec<&str> = vec!["api_key", "apikey", "private_key", "client_secret", "password", "passwd", "access_token", "auth_token"];
    let mut named = false;
    let mut i: usize = 0;
    while i < names.len() && !named
        invariant
            i <= names@.len(),
            names@.len() == sensitive_names().len(),
            forall|k: int| 0 <= k < names@.len() ==> names@[k]@ == sensitive_names()[k],
            l@ == spec_to_lowercase(line@),
            named ==> exists|k: int| 0 <= k < sensitive_names().len() && seq_contains(l@, #[trigger] sensitive_names()[k]),
            !named ==> forall|k: int| 0 <= k < i ==> !seq_contains(l@, #[trigger] sensitive_names()[k]),
        decreases names.len() - i,
    {
        if contains(&l, &chars_of(names[i])) {
            named = true;
        }
        i = i + 1;
    }
    if assignment && named {
        String::from_str("[REDACTED SENSITIVE ASSIGNMENT]")
    } else {
        String::from_str(line)
    }
}

/// Context retrieved for a question: the quoted text and where it comes from.
#[derive(Clone, Debug)]
pub struct RetrievedContext {
    pub text: String,
    pub citations: Vec<String>,
}

/// Why a context pack is assembled.
#[derive(Clone, Copy, Debug, PartialEq, Eq, Structural)]
pub enum ContextIntent {
    ExplainNode,
    ExplainFeature,
    ProjectDocumentation,
    FeatureDocumentation,
    QualityReview,
    SecurityReview,
    OptimizationReview,
    ImpactReview,
    FeatureDetection,
    FeatureSpecGeneration,
    FeaturePort,
    PrepareTask,
}

/// A node chosen for a context pack, with the reason it was chosen.
#[derive(Clone, Debug)]
pub struct ContextEntity {
    pub id: String,
    pub name: String,
    pub kind: String,
    pub path: Option<String>,
    pub reason: String,
}

/// An excerpt of first-party source placed in a context pack.
#[derive(Clone, Debug)]
pub struct ContextSnippet {
    pub node_id: String,
    pub path: String,
    pub start_line: usize,
    pub end_line: usize,
    pub source: String,
}

/// The token budget of a context: a configured maximum, part of it held in reserve.
#[derive(Clone, Copy, Debug)]
pub struct TokenBudgetManager {
    pub configured_max: usize,
    pub reserve: usize,
}

impl Default for TokenBudgetManager {
    fn default() -> (res: Self)
        ensures
            res.configured_max == 200_000,
            res.reserve == 20_000,
    {
        TokenBudgetManager { configured_max: 200_000, reserve: 20_000 }
    }
}

impl TokenBudgetManager {
    /// The room left once the reserve is set aside, never below zero.
    pub open spec fn spec_room(self) -> int {
        if self.configured_max >= self.reserve { self.configured_max - self.reserve } else { 0 }
    }

    /// The cap: the requested budget (20 000 by default), at most the room left, at least 1 000.
    pub open spec fn spec_context_cap(self, requested: Option<usize>) -> int {
        let wanted: int = match requested {
            Some(r) => r as int,
            None => 20_000,
        };
        let capped = if wanted <= self.spec_room() { wanted } else { self.spec_room() };
        if capped >= 1_000 { capped } else { 1_000 }
    }

    /// The number of tokens a context may hold.
    pub fn context_cap(self, requested: Option<usize>) -> (res: usize)
        ensures
            res == self.spec_context_cap(requested),
            res >= 1_000,
            res <= self.spec_room() || res == 1_000,
    {
        let wanted = match requested {
            Some(r) => r,
            None => 20_000,
        };
        let room = if self.configured_max >= self.reserve { self.configured_max - self.reserve } else { 0 };
        let capped = if wanted <= room { wanted } else { room };
        if capped >= 1_000 { capped } else { 1_000 }
    }

    /// Estimated tokens of a text: a quarter of its characters, rounded up.
    pub fn estimate(text: &str) -> (res: usize)
        ensures
            res == (text@.len() + 3) / 4,
    {
        let n = text.unicode_len();
        n / 4 + if n % 4 != 0 { 1 } else { 0 }
    }
}

/// However much is requested, the cap never exceeds the room left after the reserve, and
/// is at least 1 000 tokens.
pub proof fn lemma_cap_within_budget(manager: TokenBudgetManager, requested: Option<usize>)
    ensures
        1_000 <= manager.spec_context_cap(requested),
        manager.spec_context_cap(requested) <= vstd::math::max(manager.spec_room(), 1_000),
{
}

/// The key of a cached model result: the fingerprint of the content hash, the analysis
/// type, the prompt version, the provider and the model.
pub fn ai_cache_key(content_hash: &str, analysis_type: &str, prompt_version: &str, provider: &str, model: &str) -> (res: String)
    ensures
        res@ == crate::hashing::spec_stable_hash(seq![content_hash@, analysis_type@, prompt_version@, provider@, model@]),
        res@.len() == 64,
{
    let parts = vec![
        String::from_str(content_hash),
        String::from_str(analysis_type),
        String::from_str(prompt_version),
        String::from_str(provider),
        String::from_str(model),
    ];
    let key = crate::hashing::stable_hash(&parts);
    assert(parts@.map_values(|p: String| p@) =~= seq![content_hash@, analysis_type@, prompt_version@, provider@, model@]);
    key
}

/// The first line of the window quoted around a node: three lines before its start (line 1
/// when it has none), not before line 1.
pub open spec fn window_start(start_line: Option<usize>) -> int {
    let s = match start_line { Some(l) => l as int, None => 1 };
    if s - 3 >= 1 { s - 3 } else { 1 }
}

/// The last line of the window: three lines after the node's end (its window start when it
/// has none), at most 120 lines after the window start.
pub open spec fn window_end(start_line: Option<usize>, end_line: Option<usize>) -> int {
    let start = window_start(start_line);
    let e = match end_line { Some(l) => l as int, None => start };
    let after = if e + 3 > usize::MAX { usize::MAX as int } else { e + 3 };
    if after <= start + 120 { after } else { start + 120 }
}

/// The lines quoted around a node, as `(first, last)`.
pub fn context_window(start_line: Option<usize>, end_line: Option<usize>) -> (res: (usize, usize))
    requires
        window_start(start_line) + 120 <= usize::MAX,
    ensures
        res.0 == window_start(start_line),
        res.1 == window_end(start_line, end_line),
{
    let s = match start_line {
        Some(l) => l,
        None => 1,
    };
    let start = if s >= 4 { s - 3 } else { 1 };
    let e = match end_line {
        Some(l) => l,
        None => start,
    };
    let after = if e > usize::MAX - 3 { usize::MAX } else { e + 3 };
    let end = if after <= start + 120 { after } else { start + 120 };
    (start, end)
}

/// How a quoted source is cited: `path:first-last`.
pub open spec fn spec_citation_label(path: Seq<char>, first: nat, last: nat) -> Seq<char> {
    path + ":"@ + crate::text::spec_decimal(first) + "-"@ + crate::text::spec_decimal(last)
}

/// The label of a quoted source: its path, first line and last line shown.
pub fn citation_label(path: &str, first: usize, last: usize) -> (res: String)
    ensures
        res@ == spec_citation_label(path@, first as nat, last as nat),
{
    let mut out = chars_of(path);
    crate::text::append_chars(&mut out, &chars_of(":"));
    crate::text::append_chars(&mut out, &crate::text::decimal(first));
    crate::text::append_chars(&mut out, &chars_of("-"));
    crate::text::append_chars(&mut out, &crate::text::decimal(last));
    assert(out@ =~= spec_citation_label(path@, first as nat, last as nat));
    crate::text::string_of(&out)
}

} // verus!
