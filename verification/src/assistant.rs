//! The project assistant: specialist routing, evidence checks and the bounded choice of sources.
use vstd::prelude::*;

use crate::api::strip_trailing;
use crate::json::JsonDoc;
use crate::patterns::{capture_view, regex_captures, spec_regex_captures};
use crate::model::{copy_opt_string, str_equal, CodeNode, ProjectGraph};
use crate::text::{holds, views};
use crate::text::{chars_of, contains, seq_contains, seq_starts_with, spec_to_lowercase, spec_trim, starts_with, to_lowercase, trim};

verus! {

/// A command the assistant sends to the user interface.
#[derive(Clone, Debug)]
pub enum UiAction {
    NavigatePage { page: String },
    OpenNode { node_id: String },
    FocusNode { node_id: String },
    SelectNode { node_id: String },
    OpenFile { path: String },
    OpenSourceRange { node_id: String, start_line: usize, end_line: usize, source_hash: Option<String> },
    HighlightSourceRange { node_id: String, start_line: usize, end_line: usize },
    OpenFeature { feature_id: String },
    OpenFeatureSource { feature_id: String },
    OpenFeatureGraph { feature_id: String },
    OpenFinding { finding_id: String },
    OpenSecurity,
    OpenQuality,
    OpenFlow { node_id: String },
    TraceFlow { node_id: String },
    OpenImpact { node_id: String },
    OpenApi,
    OpenApiEndpoint { endpoint_id: String },
    OpenLibraryEntry { entry_id: String },
    OpenDocumentation,
    FocusGraph { node_id: String },
    FitGraph,
    FilterGraph { kinds: Vec<String> },
    ShowRelatedNodes { node_id: String },
    ShowDiff { base: Option<String>, head: Option<String> },
    ShowTestPlan { feature_id: Option<String> },
    ShowEstimate { task: String },
}

/// A quoted excerpt of source that supports an answer.
#[derive(Clone, Debug)]
pub struct Citation {
    pub node_id: String,
    pub path: String,
    pub symbol: String,
    pub start_line: usize,
    pub end_line: usize,
    pub source_hash: String,
    pub source: String,
    pub tool: String,
}

/// A tool the assistant ran, and how it went.
#[derive(Clone, Debug)]
pub struct ToolCall {
    pub tool: String,
    pub status: String,
    pub summary: String,
}

/// What the user is looking at when asking.
#[derive(Clone, Debug)]
pub struct UiContext {
    pub active_page: Option<String>,
    pub selected_node: Option<String>,
    pub selected_feature: Option<String>,
    pub selected_finding: Option<String>,
    pub selected_file: Option<String>,
    pub selected_range: Option<(usize, usize)>,
    pub current_flow: Option<String>,
    pub current_diff: Option<String>,
    pub retrieval_nodes: Vec<String>,
}

/// A conversation of a project.
#[derive(Clone, Debug)]
pub struct Conversation {
    pub id: String,
    pub project_id: String,
    pub title: String,
    pub created_at: i64,
    pub updated_at: i64,
}

/// Bounds on one answer: planning iterations, context tokens, nodes, files and tool calls.
#[derive(Clone, Debug)]
pub struct ContextLimits {
    pub max_iterations: usize,
    pub max_context_tokens: usize,
    pub max_nodes: usize,
    pub max_files: usize,
    pub max_tool_calls: usize,
}

impl Default for ContextLimits {
    fn default() -> (res: Self)
        ensures
            res.max_iterations == 3,
            res.max_context_tokens == 12000,
            res.max_nodes == 24,
            res.max_files == 12,
            res.max_tool_calls == 10,
    {
        ContextLimits { max_iterations: 3, max_context_tokens: 12000, max_nodes: 24, max_files: 12, max_tool_calls: 10 }
    }
}

// ---------------------------------------------------------------------------
// Specialists
// ---------------------------------------------------------------------------

/// The specialists and the words that call each of them, in routing order.
pub open spec fn specialist_table() -> Seq<(Seq<char>, Seq<Seq<char>>)> {
    seq![
        ("SecurityAgent"@, seq!["sécurité"@, "security"@, "xss"@, "faille"@, "risque"@]),
        ("QualityAgent"@, seq!["qualité"@, "complex"@, "quality"@]),
        ("TestingAgent"@, seq!["test"@, "playwright"@, "couverture"@]),
        ("EstimationAgent"@, seq!["estim"@, "combien"@, "temps"@, "2fa"@]),
        ("GitReviewAgent"@, seq!["diff"@, "commit"@, "branche"@, "git"@]),
        ("DocumentationAgent"@, seq!["documen"@]),
        ("FeatureAgent"@, seq!["feature"@, "fonctionnalité"@, "authentification"@, "login"@]),
    ]
}

/// Some word of `words` occurs in `q`.
pub open spec fn mentions_any(q: Seq<char>, words: Seq<Seq<char>>) -> bool {
    exists|w: int| 0 <= w < words.len() && seq_contains(q, #[trigger] words[w])
}

/// The specialists called by the first `n` rows of the table, in order.
pub open spec fn called_specialists(q: Seq<char>, n: int) -> Seq<Seq<char>>
    decreases n,
{
    if n <= 0 {
        Seq::empty()
    } else {
        called_specialists(q, n - 1) + if mentions_any(q, specialist_table()[n - 1].1) {
            seq![specialist_table()[n - 1].0]
        } else {
            Seq::empty()
        }
    }
}

/// The specialists for a question (lowercased): those whose words it mentions, or the
/// architecture specialist when none applies.
pub open spec fn spec_route_specialists(question: Seq<char>) -> Seq<Seq<char>> {
    let called = called_specialists(spec_to_lowercase(question), 7);
    if called.len() == 0 { seq!["ArchitectureAgent"@] } else { called }
}

fn mentions(q: &Vec<char>, words: &Vec<&str>) -> (res: bool)
    ensures
        res == mentions_any(q@, words@.map_values(|w: &str| w@)),
{
    let ghost ws = words@.map_values(|w: &str| w@);
    let mut i: usize = 0;
    while i < words.len()
        invariant
            i <= words@.len(),
            ws == words@.map_values(|w: &str| w@),
            forall|j: int| 0 <= j < i ==> !seq_contains(q@, #[trigger] ws[j]),
        decreases words.len() - i,
    {
        if contains(q, &chars_of(words[i])) {
            assert(seq_contains(q@, ws[i as int]));
            return true;
        }
        i = i + 1;
    }
    false
}

/// The specialist agents that should look at a question.
pub fn route_specialists(question: &str) -> (res: Vec<String>)
    ensures
        res@.map_values(|s: String| s@) == spec_route_specialists(question@),
        res@.len() >= 1,
{
    let lower = to_lowercase(question);
    let q = chars_of(lower.as_str());
    let names: Vec<&str> = vec![
        "SecurityAgent", "QualityAgent", "TestingAgent", "EstimationAgent", "GitReviewAgent", "DocumentationAgent",
        "FeatureAgent",
    ];
    let words: Vec<Vec<&str>> = vec![
        vec!["sécurité", "security", "xss", "faille", "risque"],
        vec!["qualité", "complex", "quality"],
        vec!["test", "playwright", "couverture"],
        vec!["estim", "combien", "temps", "2fa"],
        vec!["diff", "commit", "branche", "git"],
        vec!["documen"],
        vec!["feature", "fonctionnalité", "authentification", "login"],
    ];
    let ghost table = specialist_table();
    proof {
        assert(names@.len() == 7 && words@.len() == 7);
        assert forall|k: int| 0 <= k < 7 implies (#[trigger] names@[k])@ == table[k].0
            && words@[k]@.map_values(|w: &str| w@) == table[k].1 by {
            assert(words@[k]@.map_values(|w: &str| w@) =~= table[k].1);
        }
    }
    let mut roles: Vec<String> = Vec::new();
    let mut k: usize = 0;
    while k < names.len()
        invariant
            k <= 7,
            names@.len() == 7,
            words@.len() == 7,
            table == specialist_table(),
            q@ == spec_to_lowercase(question@),
            forall|j: int| 0 <= j < 7 ==> (#[trigger] names@[j])@ == table[j].0
                && words@[j]@.map_values(|w: &str| w@) == table[j].1,
            roles@.map_values(|s: String| s@) == called_specialists(q@, k as int),
        decreases names.len() - k,
    {
        proof {
            assert(names@[k as int]@ == table[k as int].0);
        }
        let hit = mentions(&q, &words[k]);
        if hit {
            roles.push(String::from_str(names[k]));
        }
        proof {
            assert(roles@.map_values(|s: String| s@) =~= called_specialists(q@, k + 1));
        }
        k = k + 1;
    }
    if roles.len() == 0 {
        roles.push(String::from_str("ArchitectureAgent"));
        proof {
            assert(roles@.map_values(|s: String| s@) =~= seq!["ArchitectureAgent"@]);
        }
    }
    roles
}

// ---------------------------------------------------------------------------
// Evidence
// ---------------------------------------------------------------------------

/// Source text re-read for a node: the text, its first and last line, and its hash.
#[derive(Clone, Debug)]
pub struct RetrievedSource {
    pub text: String,
    pub start_line: usize,
    pub end_line: usize,
    pub hash: String,
}

/// Checks citations against the project as it is now.
pub struct EvidenceVerifier;

/// A citation matches the node it names and the source re-read for that node.
pub open spec fn spec_citation_holds(g: ProjectGraph, c: Citation, source: Option<RetrievedSource>) -> bool {
    &&& g.has_node(c.node_id@)
    &&& source is Some
    &&& {
        let node = g.nodes@[g.node_index(c.node_id@)];
        let s = source->0;
        &&& node.name@ == c.symbol@
        &&& node.path is Some && node.path->0@ == c.path@
        &&& s.start_line == c.start_line
        &&& s.end_line == c.end_line
        &&& s.hash@ == c.source_hash@
        &&& s.text@ == c.source@
    }
}

impl EvidenceVerifier {
    /// Whether the citation still holds: its node exists, with the cited symbol and path,
    /// and the source re-read for that node (`source`, absent when it could not be read)
    /// has the cited lines, hash and text.
    pub fn verify(graph: &ProjectGraph, citation: &Citation, source: &Option<RetrievedSource>) -> (res: bool)
        ensures
            res == spec_citation_holds(*graph, *citation, *source),
    {
        let node = match graph.find_node(citation.node_id.as_str()) {
            Some(n) => n,
            None => {
                return false;
            },
        };
        let s = match source {
            Some(s) => s,
            None => {
                return false;
            },
        };
        let path_matches = match &node.path {
            Some(p) => str_equal(p.as_str(), citation.path.as_str()),
            None => false,
        };
        str_equal(node.name.as_str(), citation.symbol.as_str()) && path_matches && s.start_line == citation.start_line
            && s.end_line == citation.end_line && str_equal(s.hash.as_str(), citation.source_hash.as_str())
            && str_equal(s.text.as_str(), citation.source.as_str())
    }
}

// ---------------------------------------------------------------------------
// Assembling an answer from verified evidence
// ---------------------------------------------------------------------------

/// What an answer rests on: the citations that still hold, the nodes they quote, the
/// deterministic answer text, the action opening the first citation and the suggested
/// follow-up questions.
pub struct AnswerDraft {
    pub citations: Vec<Citation>,
    pub entities: Vec<CodeNode>,
    pub answer: String,
    pub actions: Vec<UiAction>,
    pub suggested_followups: Vec<String>,
}

/// The citations among the first `n` candidates that still hold, in order.
pub open spec fn holding_citations(g: ProjectGraph, cs: Seq<Citation>, sources: Seq<Option<RetrievedSource>>, n: int) -> Seq<Citation>
    decreases n,
{
    if n <= 0 {
        seq![]
    } else {
        holding_citations(g, cs, sources, n - 1) + if spec_citation_holds(g, cs[n - 1], sources[n - 1]) {
            seq![cs[n - 1]]
        } else {
            seq![]
        }
    }
}

/// The answer given when no evidence holds.
pub open spec fn no_evidence_answer() -> Seq<char> {
    "Je n’ai pas trouvé de preuve source suffisante. Précisez un symbole, une route ou une fonctionnalité, ou relancez l’analyse du projet."@
}

/// The answer given over verified entities: their count and the best-ranked one.
pub open spec fn evidence_answer(count: nat, first: CodeNode) -> Seq<char> {
    "J’ai retrouvé "@ + crate::text::spec_decimal(count) + " éléments avec des sources vérifiées. Le point d’entrée le mieux classé est "@
        + first.name@ + " ("@ + (match first.path { Some(p) => p@, None => Seq::empty() }) + "). Les relations et le code sont accessibles ci-dessous."@
}

/// Keeps the candidate citations that still hold against the project (`sources[k]` is the
/// source re-read for candidate `k`), the nodes they quote, and the answer built on them:
/// without evidence, the refusal answer and no action; otherwise an answer naming the
/// best-ranked entity, an action opening the first citation and four follow-up questions.
pub fn assemble_answer(graph: &ProjectGraph, candidates: Vec<Citation>, sources: &Vec<Option<RetrievedSource>>) -> (res: AnswerDraft)
    requires
        sources@.len() == candidates@.len(),
    ensures
        res.citations@ == holding_citations(*graph, candidates@, sources@, candidates@.len() as int),
        res.entities@.len() == res.citations@.len(),
        forall|k: int| 0 <= k < res.citations@.len() ==> graph.has_node(#[trigger] res.citations@[k].node_id@),
        forall|k: int| 0 <= k < res.entities@.len() ==> #[trigger] res.entities@[k] == graph.nodes@[graph.node_index(
            res.citations@[k].node_id@,
        )],
        res.entities@.len() == 0 ==> res.answer@ == no_evidence_answer() && res.actions@.len() == 0
            && res.suggested_followups@.len() == 0,
        res.entities@.len() > 0 ==> {
            &&& res.answer@ == evidence_answer(res.entities@.len(), res.entities@[0])
            &&& res.actions@.len() == 1
            &&& res.actions@[0] matches UiAction::OpenSourceRange { node_id, start_line, end_line, source_hash }
                && node_id == res.citations@[0].node_id && start_line == res.citations@[0].start_line
                && end_line == res.citations@[0].end_line && source_hash == Some(res.citations@[0].source_hash)
            &&& res.suggested_followups@.len() == 4
        },
{
    let ghost all = candidates@;
    let total = candidates.len();
    let mut input = candidates;
    let mut citations: Vec<Citation> = Vec::new();
    let mut entities: Vec<CodeNode> = Vec::new();
    let mut k: usize = 0;
    assert(input@ =~= all.subrange(0, all.len() as int));
    assert(citations@ =~= holding_citations(*graph, all, sources@, 0));
    while input.len() > 0
        invariant
            k + input@.len() == all.len(),
            all.len() == total,
            sources@.len() == all.len(),
            input@ == all.subrange(k as int, all.len() as int),
            citations@ == holding_citations(*graph, all, sources@, k as int),
            entities@.len() == citations@.len(),
            forall|q: int| 0 <= q < citations@.len() ==> graph.has_node(#[trigger] citations@[q].node_id@),
            forall|q: int| 0 <= q < entities@.len() ==> #[trigger] entities@[q] == graph.nodes@[graph.node_index(
                citations@[q].node_id@,
            )],
        decreases input@.len(),
    {
        let c = input.remove(0);
        assert(c == all[k as int]);
        assert(input@ =~= all.subrange(k + 1, all.len() as int));
        let ghost eb = entities@;
        let ghost cb = citations@;
        if EvidenceVerifier::verify(graph, &c, &sources[k]) {
            assert(graph.has_node(c.node_id@));
            match graph.find_node(c.node_id.as_str()) {
                Some(n) => {
                    entities.push(n.duplicate());
                },
                None => {},
            }
            citations.push(c);
            proof {
                assert forall|q: int| 0 <= q < citations@.len() implies graph.has_node(#[trigger] citations@[q].node_id@) by {
                    if q < cb.len() {
                        assert(citations@[q] == cb[q]);
                    }
                }
                assert forall|q: int| 0 <= q < entities@.len() implies #[trigger] entities@[q] == graph.nodes@[graph.node_index(
                    citations@[q].node_id@,
                )] by {
                    if q < eb.len() {
                        assert(entities@[q] == eb[q] && citations@[q] == cb[q]);
                    }
                }
            }
        }
        assert(holding_citations(*graph, all, sources@, k + 1) == holding_citations(*graph, all, sources@, k as int) + if spec_citation_holds(
            *graph,
            all[k as int],
            sources@[k as int],
        ) {
            seq![all[k as int]]
        } else {
            seq![]
        });
        assert(citations@ =~= holding_citations(*graph, all, sources@, k + 1));
        k = k + 1;
    }
    let mut actions: Vec<UiAction> = Vec::new();
    let mut followups: Vec<String> = Vec::new();
    let answer = if entities.len() == 0 {
        String::from_str("Je n’ai pas trouvé de preuve source suffisante. Précisez un symbole, une route ou une fonctionnalité, ou relancez l’analyse du projet.")
    } else {
        let first = &entities[0];
        let mut text = chars_of("J’ai retrouvé ");
        crate::text::append_chars(&mut text, &crate::text::decimal(entities.len()));
        crate::text::append_chars(&mut text, &chars_of(" éléments avec des sources vérifiées. Le point d’entrée le mieux classé est "));
        crate::text::append_chars(&mut text, &chars_of(first.name.as_str()));
        crate::text::append_chars(&mut text, &chars_of(" ("));
        match &first.path {
            Some(p) => crate::text::append_chars(&mut text, &chars_of(p.as_str())),
            None => {},
        }
        crate::text::append_chars(&mut text, &chars_of("). Les relations et le code sont accessibles ci-dessous."));
        assert(text@ =~= evidence_answer(entities@.len(), entities@[0]));
        let c = &citations[0];
        actions.push(UiAction::OpenSourceRange {
            node_id: c.node_id.clone(),
            start_line: c.start_line,
            end_line: c.end_line,
            source_hash: Some(c.source_hash.clone()),
        });
        followups.push(String::from_str("Afficher le flux"));
        followups.push(String::from_str("Il y a un risque de sécurité ?"));
        followups.push(String::from_str("Quels tests manquent ?"));
        followups.push(String::from_str("Quel serait l’impact de cette modification ?"));
        crate::text::string_of(&text)
    };
    AnswerDraft { citations, entities, answer, actions, suggested_followups: followups }
}

/// The indices a provider's answer cites are usable: at least one, each naming one of the
/// `n` citations handed to it.
pub fn grounded_indices(indices: &Vec<usize>, n: usize) -> (res: bool)
    ensures
        res == (indices@.len() > 0 && forall|k: int| 0 <= k < indices@.len() ==> #[trigger] indices@[k] < n),
{
    if indices.len() == 0 {
        return false;
    }
    let mut k: usize = 0;
    while k < indices.len()
        invariant
            k <= indices@.len(),
            forall|q: int| 0 <= q < k ==> #[trigger] indices@[q] < n,
        decreases indices.len() - k,
    {
        if indices[k] >= n {
            return false;
        }
        k = k + 1;
    }
    true
}

// ---------------------------------------------------------------------------
// The decisions of one answer
// ---------------------------------------------------------------------------

/// The orchestrator of an answer; what it decides between tool runs stands here.
pub struct AgentOrchestrator;

/// A question is accepted when it is not blank and holds at most 8000 characters.
pub open spec fn spec_question_accepted(question: Seq<char>) -> bool {
    spec_trim(question).len() > 0 && question.len() <= 8000
}

/// Openings of a question that continue the conversation.
pub open spec fn followup_openings() -> Seq<Seq<char>> {
    seq![
        "il y a"@, "si je"@, "montre-moi les fichiers"@, "quels tests"@, "génère"@, "combien"@, "ces fichiers"@,
        "cette"@, "son "@, "et "@,
    ]
}

/// The lowercased question opens like a follow-up.
pub open spec fn spec_followup(question: Seq<char>) -> bool {
    exists|k: int| 0 <= k < followup_openings().len()
        && seq_starts_with(spec_to_lowercase(question), #[trigger] followup_openings()[k])
}

/// A source that could be quoted: the node, its path and what was re-read.
#[derive(Clone, Debug)]
pub struct CandidateSource {
    pub node_id: String,
    pub path: String,
    pub symbol: String,
    pub source: RetrievedSource,
}

/// The citation quotes exactly the candidate's node, path, lines, hash and text.
pub open spec fn quotes(c: Citation, s: CandidateSource) -> bool {
    &&& c.node_id == s.node_id
    &&& c.path == s.path
    &&& c.symbol == s.symbol
    &&& c.source == s.source.text
    &&& c.start_line == s.source.start_line
    &&& c.end_line == s.source.end_line
    &&& c.source_hash == s.source.hash
}

/// The citation quotes one of the candidates.
pub open spec fn quotes_some(c: Citation, candidates: Seq<CandidateSource>) -> bool {
    exists|j: int| 0 <= j < candidates.len() && quotes(c, #[trigger] candidates[j])
}

/// What choosing sources has gathered: the distinct files opened, the tokens spent, and the
/// positions of the candidates chosen.
pub type Selection = (Seq<Seq<char>>, int, Seq<int>);

/// The tokens a text is estimated to hold: a quarter of its characters, rounded up.
pub open spec fn tokens_of(text: Seq<char>) -> int {
    ((text.len() + 3) / 4) as int
}

/// The choice made over the first `n` candidates: a candidate is taken when its file is
/// already open or fewer than `max_files` are, and its tokens fit in what is left.
pub open spec fn selection(cands: Seq<CandidateSource>, limits: ContextLimits, n: int) -> Selection
    decreases n,
{
    if n <= 0 {
        (Seq::empty(), 0, Seq::empty())
    } else {
        let st = selection(cands, limits, n - 1);
        let c = cands[n - 1];
        let known = st.0.contains(c.path@);
        let needed = tokens_of(c.source.text@);
        if (known || st.0.len() < limits.max_files) && st.1 + needed <= limits.max_context_tokens {
            (if known { st.0 } else { st.0.push(c.path@) }, st.1 + needed, st.2.push(n - 1))
        } else {
            st
        }
    }
}

/// The citations quote, in order, the candidates at the chosen positions, each read with
/// `get_source`.
pub open spec fn cites_chosen(out: Seq<Citation>, cands: Seq<CandidateSource>, chosen: Seq<int>) -> bool {
    &&& out.len() == chosen.len()
    &&& forall|k: int| 0 <= k < out.len() ==> chosen_at(out, cands, chosen, k)
}

/// The citation at `k` quotes the candidate chosen at `k`, read with `get_source`.
pub open spec fn chosen_at(out: Seq<Citation>, cands: Seq<CandidateSource>, chosen: Seq<int>, k: int) -> bool {
    0 <= chosen[k] < cands.len() && quotes(out[k], cands[chosen[k]]) && out[k].tool@ == "get_source"@
}

impl AgentOrchestrator {
    /// Whether a question may be answered at all.
    pub fn question_accepted(question: &str) -> (res: bool)
        ensures
            res == spec_question_accepted(question@),
    {
        let t = trim(&chars_of(question));
        t.len() > 0 && question.unicode_len() <= 8000
    }

    /// Whether the question continues the conversation, so the previous focus stays.
    pub fn is_followup(question: &str) -> (res: bool)
        ensures
            res == spec_followup(question@),
    {
        let lower = to_lowercase(question);
        let q = chars_of(lower.as_str());
        let openings: Vec<&str> = vec![
            "il y a", "si je", "montre-moi les fichiers", "quels tests", "génère", "combien", "ces fichiers", "cette",
            "son ", "et ",
        ];
        let ghost table = followup_openings();
        proof {
            assert forall|k: int| 0 <= k < 10 implies (#[trigger] openings@[k])@ == table[k] by {
            }
        }
        let mut i: usize = 0;
        while i < openings.len()
            invariant
                i <= 10,
                openings@.len() == 10,
                table == followup_openings(),
                q@ == spec_to_lowercase(question@),
                forall|k: int| 0 <= k < 10 ==> (#[trigger] openings@[k])@ == table[k],
                forall|k: int| 0 <= k < i ==> !seq_starts_with(q@, #[trigger] table[k]),
            decreases openings.len() - i,
        {
            if starts_with(&q, &chars_of(openings[i])) {
                assert(seq_starts_with(q@, table[i as int]));
                return true;
            }
            i = i + 1;
        }
        false
    }

    /// The tool calls left for planning once the final evidence check is set aside.
    pub fn tool_budget(limits: &ContextLimits) -> (res: usize)
        ensures
            res == if limits.max_tool_calls >= 1 { limits.max_tool_calls - 1 } else { 0 },
    {
        if limits.max_tool_calls >= 1 { limits.max_tool_calls - 1 } else { 0 }
    }

    /// Chooses, in order, the sources to quote: a source is skipped when it would open a file
    /// beyond `max_files` or push the token total past `max_context_tokens`. Returns the
    /// citations and the tokens they hold.
    pub fn select_citations(candidates: &Vec<CandidateSource>, limits: &ContextLimits) -> (res: (Vec<Citation>, usize))
        ensures
            res.1 == selection(candidates@, *limits, candidates@.len() as int).1,
            res.1 <= limits.max_context_tokens,
            cites_chosen(res.0@, candidates@, selection(candidates@, *limits, candidates@.len() as int).2),
    {
        let mut files: Vec<String> = Vec::new();
        let mut out: Vec<Citation> = Vec::new();
        let mut tokens: usize = 0;
        let mut i: usize = 0;
        while i < candidates.len()
            invariant
                i <= candidates@.len(),
                tokens <= limits.max_context_tokens,
                views(files@) == selection(candidates@, *limits, i as int).0,
                tokens == selection(candidates@, *limits, i as int).1,
                cites_chosen(out@, candidates@, selection(candidates@, *limits, i as int).2),
            decreases candidates.len() - i,
        {
            let c = &candidates[i];
            let known = holds(&files, c.path.as_str());
            let needed = crate::context::TokenBudgetManager::estimate(c.source.text.as_str());
            let ghost st = selection(candidates@, *limits, i as int);
            if (known || files.len() < limits.max_files) && needed <= limits.max_context_tokens - tokens {
                if !known {
                    files.push(c.path.clone());
                    assert(views(files@) =~= st.0.push(c.path@));
                }
                tokens = tokens + needed;
                let ghost out_before = out@;
                out.push(Citation {
                    node_id: c.node_id.clone(),
                    path: c.path.clone(),
                    symbol: c.symbol.clone(),
                    start_line: c.source.start_line,
                    end_line: c.source.end_line,
                    source_hash: c.source.hash.clone(),
                    source: c.source.text.clone(),
                    tool: String::from_str("get_source"),
                });
                proof {
                    let next = selection(candidates@, *limits, i + 1);
                    assert(next.2 == st.2.push(i as int));
                    assert(cites_chosen(out_before, candidates@, st.2));
                    assert forall|k: int| 0 <= k < out@.len() implies #[trigger] chosen_at(out@, candidates@, next.2, k) by {
                        if k < out_before.len() {
                            assert(chosen_at(out_before, candidates@, st.2, k));
                            assert(out@[k] == out_before[k]);
                            assert(next.2[k] == st.2[k]);
                        } else {
                            assert(out@[k].tool@ == "get_source"@);
                        }
                    }
                    assert(out@.len() == out_before.len() + 1);
                    assert(out@.len() == next.2.len());
                    assert(cites_chosen(out@, candidates@, next.2));
                }
            } else {
                assert(selection(candidates@, *limits, i + 1) == st);
            }
            i = i + 1;
        }
        (out, tokens)
    }

    /// The view a question asks for: tracing a flow (`flow`, `flux`, `trace`) or reviewing an
    /// impact (`impact`, which wins), on the best-ranked entity; otherwise the actions stay.
    pub fn question_actions(question: &str, active: Option<&str>, actions: Vec<UiAction>) -> (res: Vec<UiAction>)
        ensures
            match active {
                None => res@ == actions@,
                Some(id) => {
                    let q = spec_to_lowercase(question@);
                    if seq_contains(q, "impact"@) {
                        res@.len() == 1 && (res@[0] matches UiAction::OpenImpact { node_id } && node_id@ == id@)
                    } else if seq_contains(q, "flow"@) || seq_contains(q, "flux"@) || seq_contains(q, "trace"@) {
                        res@.len() == 1 && (res@[0] matches UiAction::TraceFlow { node_id } && node_id@ == id@)
                    } else {
                        res@ == actions@
                    }
                },
            },
    {
        let lower = to_lowercase(question);
        let q = chars_of(lower.as_str());
        let mut out = actions;
        match active {
            Some(id) => {
                if contains(&q, &chars_of("flow")) || contains(&q, &chars_of("flux")) || contains(&q, &chars_of("trace")) {
                    out = vec![UiAction::TraceFlow { node_id: String::from_str(id) }];
                }
                if contains(&q, &chars_of("impact")) {
                    out = vec![UiAction::OpenImpact { node_id: String::from_str(id) }];
                }
            },
            None => {},
        }
        out
    }
}


// ---------------------------------------------------------------------------
// Node ids mentioned by a tool result
// ---------------------------------------------------------------------------

/// The texts of a document in depth-first order, members and elements in order.
pub open spec fn texts_in(d: JsonDoc) -> Seq<Seq<char>>
    decreases d,
{
    match d {
        JsonDoc::Text(s) => seq![s@],
        JsonDoc::Array(v) => texts_in_list(v@),
        JsonDoc::Object(ms) => texts_in_members(ms@),
        _ => Seq::empty(),
    }
}

/// The texts of a list of documents, one after the other.
pub open spec fn texts_in_list(ds: Seq<JsonDoc>) -> Seq<Seq<char>>
    decreases ds,
{
    if ds.len() == 0 {
        Seq::empty()
    } else {
        texts_in_list(ds.drop_last()) + texts_in(ds.last())
    }
}

/// The texts of the values of a list of members, one after the other.
pub open spec fn texts_in_members(ms: Seq<(String, JsonDoc)>) -> Seq<Seq<char>>
    decreases ms,
{
    if ms.len() == 0 {
        Seq::empty()
    } else {
        texts_in_members(ms.drop_last()) + texts_in(ms.last().1)
    }
}

/// `ids` after the texts `ts` in turn: a text naming a node of the graph is added when it is
/// not there yet and fewer than 24 ids are held.
pub open spec fn add_node_ids(g: ProjectGraph, ids: Seq<Seq<char>>, ts: Seq<Seq<char>>) -> Seq<Seq<char>>
    decreases ts.len(),
{
    if ts.len() == 0 {
        ids
    } else {
        let before = add_node_ids(g, ids, ts.drop_last());
        let t = ts.last();
        if before.len() < 24 && g.has_node(t) && !before.contains(t) { before.push(t) } else { before }
    }
}

proof fn lemma_add_node_ids_concat(g: ProjectGraph, ids: Seq<Seq<char>>, a: Seq<Seq<char>>, b: Seq<Seq<char>>)
    ensures
        add_node_ids(g, ids, a + b) == add_node_ids(g, add_node_ids(g, ids, a), b),
    decreases b.len(),
{
    if b.len() == 0 {
        assert(a + b =~= a);
    } else {
        assert((a + b).drop_last() =~= a + b.drop_last());
        assert((a + b).last() == b.last());
        lemma_add_node_ids_concat(g, ids, a, b.drop_last());
    }
}

/// Adds to `ids` the node ids a tool result mentions: each text of the result, in
/// depth-first order, that designates a node of the graph and is not held yet, while fewer
/// than 24 ids are held.
pub fn collect_node_ids(value: &JsonDoc, graph: &ProjectGraph, ids: &mut Vec<String>)
    ensures
        views(final(ids)@) == add_node_ids(*graph, views(old(ids)@), texts_in(*value)),
    decreases value,
{
    match value {
        JsonDoc::Text(id) => {
            let ghost start = views(ids@);
            assert(texts_in(*value) == seq![id@]);
            assert(seq![id@].drop_last() =~= Seq::<Seq<char>>::empty());
            assert(add_node_ids(*graph, start, Seq::<Seq<char>>::empty()) == start);
            if ids.len() < 24 && graph.find_node_index(id.as_str()).is_some() && !holds(ids, id.as_str()) {
                ids.push(id.clone());
                assert(views(ids@) =~= start.push(id@));
            }
        },
        JsonDoc::Array(items) => {
            let ghost start = views(ids@);
            let mut k: usize = 0;
            while k < items.len()
                invariant
                    k <= items@.len(),
                    *value == JsonDoc::Array(*items),
                    views(ids@) == add_node_ids(*graph, start, texts_in_list(items@.subrange(0, k as int))),
                decreases items.len() - k,
            {
                let ghost before = views(ids@);
                assert(items@.subrange(0, k + 1).drop_last() =~= items@.subrange(0, k as int));
                assert(items@.subrange(0, k + 1).last() == items@[k as int]);
                assert(decreases_to!(*value => (*value)->Array_0));
                assert((*value)->Array_0 == *items);
                assert(decreases_to!(*items => items@));
                assert(decreases_to!(items@ => items@[k as int]));
                collect_node_ids(&items[k], graph, ids);
                proof {
                    lemma_add_node_ids_concat(*graph, start, texts_in_list(items@.subrange(0, k as int)), texts_in(items@[k as int]));
                }
                k = k + 1;
            }
            assert(items@.subrange(0, items@.len() as int) =~= items@);
        },
        JsonDoc::Object(members) => {
            let ghost start = views(ids@);
            let mut k: usize = 0;
            while k < members.len()
                invariant
                    k <= members@.len(),
                    *value == JsonDoc::Object(*members),
                    views(ids@) == add_node_ids(*graph, start, texts_in_members(members@.subrange(0, k as int))),
                decreases members.len() - k,
            {
                assert(members@.subrange(0, k + 1).drop_last() =~= members@.subrange(0, k as int));
                assert(members@.subrange(0, k + 1).last() == members@[k as int]);
                assert(decreases_to!(*value => (*value)->Object_0));
                assert((*value)->Object_0 == *members);
                assert(decreases_to!(*members => members@));
                assert(decreases_to!(members@ => members@[k as int]));
                assert(decreases_to!(members@[k as int] => members@[k as int].1));
                collect_node_ids(&members[k].1, graph, ids);
                proof {
                    lemma_add_node_ids_concat(*graph, start, texts_in_members(members@.subrange(0, k as int)), texts_in(members@[k as int].1));
                }
                k = k + 1;
            }
            assert(members@.subrange(0, members@.len() as int) =~= members@);
        },
        _ => {},
    }
}


// ---------------------------------------------------------------------------
// Revisions named by a question
// ---------------------------------------------------------------------------

/// The pattern of a comparison between two revisions: `entre A et B` or `between A and B`.
pub open spec fn revision_pattern() -> Seq<char> {
    "(?i)(?:entre|between)\\s+[`\\\"']?([A-Za-z0-9_./-]+)[`\\\"']?\\s+(?:et|and)\\s+[`\\\"']?([A-Za-z0-9_./-]+)"@
}

/// The two revisions the first comparison of a question names, trailing dots removed; none
/// when it names no comparison (or the pattern does not compile).
pub open spec fn spec_git_comparison(question: Seq<char>) -> (Option<Seq<char>>, Option<Seq<char>>) {
    match spec_regex_captures(revision_pattern(), question) {
        Some(cs) => if cs.len() > 0 && cs[0].3.len() >= 2 && cs[0].3[0] is Some && cs[0].3[1] is Some {
            (Some(strip_trailing(cs[0].3[0]->0, '.')), Some(strip_trailing(cs[0].3[1]->0, '.')))
        } else {
            (None, None)
        },
        None => (None, None),
    }
}

fn without_trailing_dots(s: &String) -> (res: String)
    ensures
        res@ == strip_trailing(s@, '.'),
{
    let c = chars_of(s.as_str());
    let mut end: usize = c.len();
    assert(c@.subrange(0, c@.len() as int) =~= c@);
    while end > 0 && c[end - 1] == '.'
        invariant
            end <= c@.len(),
            strip_trailing(c@, '.') == strip_trailing(c@.subrange(0, end as int), '.'),
        decreases end,
    {
        assert(c@.subrange(0, end as int).drop_last() =~= c@.subrange(0, end - 1));
        end = end - 1;
    }
    crate::text::string_of(&crate::text::slice_chars(&c, 0, end))
}

/// The two revisions a question asks to compare, as in "between main and feature/x".
pub fn git_comparison(question: &str) -> (res: (Option<String>, Option<String>))
    ensures
        (match res.0 {
            Some(a) => Some(a@),
            None => None,
        }, match res.1 {
            Some(b) => Some(b@),
            None => None,
        }) == spec_git_comparison(question@),
{
    let captures = match regex_captures(
        "(?i)(?:entre|between)\\s+[`\\\"']?([A-Za-z0-9_./-]+)[`\\\"']?\\s+(?:et|and)\\s+[`\\\"']?([A-Za-z0-9_./-]+)",
        question,
    ) {
        Some(c) => c,
        None => return (None, None),
    };
    if captures.len() == 0 || captures[0].groups.len() < 2 {
        return (None, None);
    }
    let ghost cv = capture_view(captures@[0]);
    assert(cv.3[0] == match captures@[0].groups@[0] { Some(s) => Some(s@), None => None::<Seq<char>> });
    assert(cv.3[1] == match captures@[0].groups@[1] { Some(s) => Some(s@), None => None::<Seq<char>> });
    match (&captures[0].groups[0], &captures[0].groups[1]) {
        (Some(a), Some(b)) => (Some(without_trailing_dots(a)), Some(without_trailing_dots(b))),
        _ => (None, None),
    }
}

} // verus!
