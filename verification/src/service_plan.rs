//! A search with its attachments: what is run, and with which parameters.

use vstd::prelude::*;
use crate::bundle::{ContextBundleParams, LineRange};
use crate::bundle_graph::text_of;
use crate::decimal::{decimal, push_decimal};
use crate::pieces::{push_text, texts};
use crate::search::{Classification, ContextGoal, SemanticSearchResponse};
use crate::service_state::{
    budget_of, larger_of, or_else, smaller_of, CodeLookupParams, EnvironmentSnapshot,
    SemanticSearchRequest, DEFAULT_NEIGHBOR_LIMIT_HINT, DEFAULT_SNIPPET_LIMIT_HINT,
    MIN_BUNDLE_BUDGET,
};
use crate::text::{same_text, trim_str, trimmed};

verus! {

// ---------------------------------------------------------------------------
// Requests
// ---------------------------------------------------------------------------

/// Which attachments a search brings.
#[derive(Debug, Clone, Copy, PartialEq, Eq, Structural)]
pub struct SearchInclude {
    pub bundle: bool,
    pub lookup: bool,
}

impl Default for SearchInclude {
    fn default() -> (r: Self)
        ensures
            r.bundle,
            r.lookup,
    {
        SearchInclude { bundle: true, lookup: true }
    }
}

/// How a caller wants the tokens shared out.
#[derive(Debug, Clone, Copy, PartialEq, Eq, Structural)]
pub struct SharedBudgetSpec {
    pub total_tokens: Option<u32>,
    pub search_tokens: Option<u32>,
    pub bundle_tokens: Option<u32>,
    pub lookup_tokens: Option<u32>,
    pub deadline_ms: Option<u64>,
}

/// A search with its attachments.
#[derive(Debug)]
pub struct UnifiedSemanticSearchRequest {
    pub search: SemanticSearchRequest,
    pub attachments: SearchInclude,
    pub bundle: Option<ContextBundleParams>,
    pub lookup: Option<CodeLookupParams>,
    pub shared_budget: Option<SharedBudgetSpec>,
}

/// How the tokens are shared out.
#[derive(Debug, Clone, Copy, PartialEq, Eq, Structural)]
pub struct SharedBudget {
    pub total_tokens: Option<u32>,
    pub bundle_tokens: Option<u32>,
    pub lookup_tokens: Option<u32>,
}

impl Default for SharedBudget {
    fn default() -> (r: Self)
        ensures
            r.total_tokens is None,
            r.bundle_tokens is None,
            r.lookup_tokens is None,
    {
        SharedBudget { total_tokens: None, bundle_tokens: None, lookup_tokens: None }
    }
}

/// A budget, no larger than a limit where there is one.
pub open spec fn capped(budget: int, limit: Option<u32>) -> int {
    match limit {
        Some(n) => smaller_of(budget, n as int),
        None => budget,
    }
}

/// The budget that a bundle gets: that of the surroundings within both limits, but never
/// less than the least.
pub open spec fn shared_bundle_budget(
    shared: SharedBudget,
    override_tokens: Option<usize>,
    remaining: Option<usize>,
) -> int {
    let base = smaller_of(budget_of(override_tokens, remaining), u32::MAX as int);
    larger_of(
        capped(capped(base, shared.total_tokens), shared.bundle_tokens),
        MIN_BUNDLE_BUDGET as int,
    )
}

impl SharedBudget {
    /// How the tokens are shared out, as the caller wants it.
    pub fn from_spec(spec: Option<SharedBudgetSpec>) -> (r: Self)
        ensures
            r == match spec {
                Some(s) => SharedBudget {
                    total_tokens: s.total_tokens,
                    bundle_tokens: s.bundle_tokens,
                    lookup_tokens: s.lookup_tokens,
                },
                None => SharedBudget {
                    total_tokens: None,
                    bundle_tokens: None,
                    lookup_tokens: None,
                },
            },
    {
        match spec {
            Some(s) => SharedBudget {
                total_tokens: s.total_tokens,
                bundle_tokens: s.bundle_tokens,
                lookup_tokens: s.lookup_tokens,
            },
            None => SharedBudget { total_tokens: None, bundle_tokens: None, lookup_tokens: None },
        }
    }

    /// The budget that a bundle gets.
    pub fn bundle_budget_hint(&self, snapshot: &EnvironmentSnapshot) -> (r: Option<u32>)
        ensures
            r == Some(
                shared_bundle_budget(
                    *self,
                    snapshot.bundle_budget_override,
                    snapshot.remaining_context_tokens,
                ) as u32,
            ),
            0 <= shared_bundle_budget(
                *self,
                snapshot.bundle_budget_override,
                snapshot.remaining_context_tokens,
            ) <= u32::MAX,
    {
        let mut budget: u32 = snapshot.bundle_budget_hint();
        if let Some(limit) = self.total_tokens {
            if budget > limit {
                budget = limit;
            }
        }
        if let Some(limit) = self.bundle_tokens {
            if budget > limit {
                budget = limit;
            }
        }
        if budget < MIN_BUNDLE_BUDGET as u32 {
            budget = MIN_BUNDLE_BUDGET as u32;
        }
        Some(budget)
    }
}

/// A shared budget is never less than the least, and a limit of at least that much is kept.
pub proof fn law_shared_budget(
    shared: SharedBudget,
    override_tokens: Option<usize>,
    remaining: Option<usize>,
)
    ensures
        shared_bundle_budget(shared, override_tokens, remaining) >= MIN_BUNDLE_BUDGET,
        shared.total_tokens matches Some(n) && n >= MIN_BUNDLE_BUDGET ==> shared_bundle_budget(
            shared,
            override_tokens,
            remaining,
        ) <= shared.total_tokens->0,
        shared.bundle_tokens matches Some(n) && n >= MIN_BUNDLE_BUDGET ==> shared_bundle_budget(
            shared,
            override_tokens,
            remaining,
        ) <= shared.bundle_tokens->0,
{
}

/// What is run for a search with its attachments.
#[derive(Debug, Clone)]
pub struct OrchestrationPlan {
    pub search: SemanticSearchRequest,
    pub include_bundle: bool,
    pub include_lookup: bool,
    pub bundle_override: Option<ContextBundleParams>,
    pub lookup_override: Option<CodeLookupParams>,
    pub shared_budget: SharedBudget,
}

impl OrchestrationPlan {
    /// Whether a bundle is attached.
    pub fn should_run_bundle(&self) -> (r: bool)
        ensures
            r == (self.include_bundle || self.bundle_override is Some),
    {
        self.include_bundle || self.bundle_override.is_some()
    }

    /// Whether a lookup is attached.
    pub fn should_run_lookup(&self) -> (r: bool)
        ensures
            r == (self.include_lookup || self.lookup_override is Some),
    {
        self.include_lookup || self.lookup_override.is_some()
    }
}

/// What is run for a request.
pub fn plan_orchestration(request: UnifiedSemanticSearchRequest) -> (r: OrchestrationPlan)
    ensures
        r.search == request.search,
        r.include_bundle == (request.attachments.bundle || request.bundle is Some),
        r.include_lookup == (request.attachments.lookup || request.lookup is Some),
        r.bundle_override == request.bundle,
        r.lookup_override == request.lookup,
        r.shared_budget == (match request.shared_budget {
            Some(s) => SharedBudget {
                total_tokens: s.total_tokens,
                bundle_tokens: s.bundle_tokens,
                lookup_tokens: s.lookup_tokens,
            },
            None => SharedBudget { total_tokens: None, bundle_tokens: None, lookup_tokens: None },
        }),
{
    let include_bundle = request.attachments.bundle || request.bundle.is_some();
    let include_lookup = request.attachments.lookup || request.lookup.is_some();
    OrchestrationPlan {
        search: request.search,
        include_bundle,
        include_lookup,
        bundle_override: request.bundle,
        lookup_override: request.lookup,
        shared_budget: SharedBudget::from_spec(request.shared_budget),
    }
}

// ---------------------------------------------------------------------------
// Attachments
// ---------------------------------------------------------------------------

/// How an attachment came out.
#[derive(Debug, Clone, Copy, PartialEq, Eq, Structural)]
pub enum AttachmentOutcome {
    NotRequested,
    Success,
    Skipped,
    Failed,
}

impl Default for AttachmentOutcome {
    fn default() -> (r: Self)
        ensures
            r == AttachmentOutcome::NotRequested,
    {
        AttachmentOutcome::NotRequested
    }
}

impl AttachmentOutcome {
    /// The outcome in one word.
    pub fn as_label(self) -> (r: &'static str)
        ensures
            r@ == match self {
                AttachmentOutcome::NotRequested => "not_requested"@,
                AttachmentOutcome::Success => "success"@,
                AttachmentOutcome::Skipped => "skipped"@,
                AttachmentOutcome::Failed => "failed"@,
            },
    {
        match self {
            AttachmentOutcome::NotRequested => "not_requested",
            AttachmentOutcome::Success => "success",
            AttachmentOutcome::Skipped => "skipped",
            AttachmentOutcome::Failed => "failed",
        }
    }

    /// Whether the attachment failed.
    pub fn is_failure(self) -> (r: bool)
        ensures
            r == (self == AttachmentOutcome::Failed),
    {
        match self {
            AttachmentOutcome::Failed => true,
            _ => false,
        }
    }
}

/// An attachment. What it holds and its metadata are JSON text.
#[derive(Debug)]
pub enum AttachmentResult {
    Success { structured: String, meta: Option<String>, summary: String },
    Skipped { warning: String },
    Failed { warning: String },
}

/// How an attachment came out.
pub open spec fn outcome_of(result: AttachmentResult) -> AttachmentOutcome {
    match result {
        AttachmentResult::Success { .. } => AttachmentOutcome::Success,
        AttachmentResult::Skipped { .. } => AttachmentOutcome::Skipped,
        AttachmentResult::Failed { .. } => AttachmentOutcome::Failed,
    }
}

/// One kind of attachment: what it holds, its metadata, and what is said of it.
#[derive(Debug)]
pub struct AttachedPart {
    pub value: Option<String>,
    pub meta: Option<String>,
    pub summary: Option<String>,
    pub outcome: AttachmentOutcome,
}

/// What an attachment leaves behind.
pub open spec fn part_after(before: AttachedPart, result: AttachmentResult) -> AttachedPart {
    match result {
        AttachmentResult::Success { structured, meta, summary } => AttachedPart {
            value: Some(structured),
            meta,
            summary: Some(summary),
            outcome: AttachmentOutcome::Success,
        },
        _ => AttachedPart { outcome: outcome_of(result), ..before },
    }
}

/// The warning of an attachment that came to nothing.
pub open spec fn warning_of(result: AttachmentResult) -> Seq<Seq<char>> {
    match result {
        AttachmentResult::Success { .. } => Seq::empty(),
        AttachmentResult::Skipped { warning } => seq![warning@],
        AttachmentResult::Failed { warning } => seq![warning@],
    }
}

/// The attachments of a search.
#[derive(Debug)]
pub struct SearchAttachmentAccumulator {
    pub bundle: AttachedPart,
    pub lookup: AttachedPart,
    pub warnings: Vec<String>,
}

fn no_part() -> (r: AttachedPart)
    ensures
        r == (AttachedPart {
            value: None,
            meta: None,
            summary: None,
            outcome: AttachmentOutcome::NotRequested,
        }),
{
    AttachedPart {
        value: None,
        meta: None,
        summary: None,
        outcome: AttachmentOutcome::NotRequested,
    }
}

fn take_result(part: &mut AttachedPart, warnings: &mut Vec<String>, result: AttachmentResult)
    ensures
        *final(part) == part_after(*old(part), result),
        texts(final(warnings)@) == texts(old(warnings)@) + warning_of(result),
{
    match result {
        AttachmentResult::Success { structured, meta, summary } => {
            part.value = Some(structured);
            part.meta = meta;
            part.summary = Some(summary);
            part.outcome = AttachmentOutcome::Success;
            assert(texts(warnings@) =~= texts(old(warnings)@) + warning_of(result));
        },
        AttachmentResult::Skipped { warning } => {
            part.outcome = AttachmentOutcome::Skipped;
            push_text(warnings, warning);
            assert(texts(warnings@) =~= texts(old(warnings)@) + warning_of(result));
        },
        AttachmentResult::Failed { warning } => {
            part.outcome = AttachmentOutcome::Failed;
            push_text(warnings, warning);
            assert(texts(warnings@) =~= texts(old(warnings)@) + warning_of(result));
        },
    }
}

/// What a search brings along, each as JSON text.
#[derive(Debug)]
pub struct Attachments {
    pub bundle: Option<String>,
    pub code: Option<String>,
}

/// The metadata of an attachment, unless it is JSON's `null`.
pub open spec fn filled_meta(meta: Option<Seq<char>>) -> Option<Seq<char>> {
    match meta {
        Some(text) => if text == "null"@ {
            None
        } else {
            Some(text)
        },
        None => None,
    }
}

fn keep_meta(meta: &Option<String>) -> (r: Option<String>)
    ensures
        text_of(r) == filled_meta(text_of(*meta)),
{
    match meta {
        Some(text) => if same_text(text.as_str(), "null") {
            None
        } else {
            Some(text.clone())
        },
        None => None,
    }
}

impl Default for SearchAttachmentAccumulator {
    fn default() -> (r: Self)
        ensures
            r.bundle.value is None && r.bundle.meta is None && r.bundle.summary is None,
            r.lookup.value is None && r.lookup.meta is None && r.lookup.summary is None,
            r.bundle.outcome == AttachmentOutcome::NotRequested,
            r.lookup.outcome == AttachmentOutcome::NotRequested,
            r.warnings@.len() == 0,
    {
        SearchAttachmentAccumulator { bundle: no_part(), lookup: no_part(), warnings: Vec::new() }
    }
}

impl SearchAttachmentAccumulator {
    /// Takes the bundle in.
    pub fn bundle(&mut self, result: AttachmentResult)
        ensures
            final(self).bundle == part_after(old(self).bundle, result),
            final(self).lookup == old(self).lookup,
            texts(final(self).warnings@) == texts(old(self).warnings@) + warning_of(result),
    {
        take_result(&mut self.bundle, &mut self.warnings, result);
    }

    /// Takes the lookup in.
    pub fn lookup(&mut self, result: AttachmentResult)
        ensures
            final(self).lookup == part_after(old(self).lookup, result),
            final(self).bundle == old(self).bundle,
            texts(final(self).warnings@) == texts(old(self).warnings@) + warning_of(result),
    {
        take_result(&mut self.lookup, &mut self.warnings, result);
    }

    /// What is attached; `None` where nothing is.
    pub fn attachments_value(&self) -> (r: Option<Attachments>)
        ensures
            match r {
                Some(a) => {
                    &&& self.bundle.value is Some || self.lookup.value is Some
                    &&& text_of(a.bundle) == text_of(self.bundle.value)
                    &&& text_of(a.code) == text_of(self.lookup.value)
                },
                None => self.bundle.value is None && self.lookup.value is None,
            },
    {
        if self.bundle.value.is_none() && self.lookup.value.is_none() {
            return None;
        }
        let bundle = match &self.bundle.value {
            Some(text) => Some(text.clone()),
            None => None,
        };
        let code = match &self.lookup.value {
            Some(text) => Some(text.clone()),
            None => None,
        };
        Some(Attachments { bundle, code })
    }

    /// The metadata of what is attached; `None` where there is none.
    pub fn attachments_meta(&self) -> (r: Option<Attachments>)
        ensures
            match r {
                Some(a) => {
                    &&& a.bundle is Some || a.code is Some
                    &&& text_of(a.bundle) == filled_meta(text_of(self.bundle.meta))
                    &&& text_of(a.code) == filled_meta(text_of(self.lookup.meta))
                },
                None => filled_meta(text_of(self.bundle.meta)) is None && filled_meta(
                    text_of(self.lookup.meta),
                ) is None,
            },
    {
        let bundle = keep_meta(&self.bundle.meta);
        let code = keep_meta(&self.lookup.meta);
        if bundle.is_none() && code.is_none() {
            None
        } else {
            Some(Attachments { bundle, code })
        }
    }

    /// What is said of the attachments: of the bundle first.
    pub fn summary_lines(&self) -> (r: Vec<String>)
        ensures
            texts(r@) == summary_of(self.bundle) + summary_of(self.lookup),
    {
        let mut out: Vec<String> = Vec::new();
        if let Some(line) = &self.bundle.summary {
            push_text(&mut out, line.clone());
        }
        assert(texts(out@) =~= summary_of(self.bundle));
        let ghost first = texts(out@);
        if let Some(line) = &self.lookup.summary {
            push_text(&mut out, line.clone());
        }
        assert(texts(out@) =~= first + summary_of(self.lookup));
        out
    }
}

/// What is said of an attachment.
pub open spec fn summary_of(part: AttachedPart) -> Seq<Seq<char>> {
    match part.summary {
        Some(line) => seq![line@],
        None => Seq::empty(),
    }
}

// ---------------------------------------------------------------------------
// Parameters of a bundle
// ---------------------------------------------------------------------------

/// A line number that is positive, as 32 bits hold it.
pub open spec fn positive_line(line: Option<i64>) -> Option<u32> {
    match line {
        Some(n) => if n > 0 {
            Some(n as u32)
        } else {
            None
        },
        None => None,
    }
}

/// A line number that is positive, as 32 bits hold it.
pub fn keep_positive(line: Option<i64>) -> (r: Option<u32>)
    ensures
        r == positive_line(line),
{
    match line {
        Some(n) => if n > 0 {
            Some(n as u32)
        } else {
            None
        },
        None => None,
    }
}

/// The lines of a match, in order.
pub open spec fn match_range(start: Option<i64>, end: Option<i64>) -> Option<LineRange> {
    match (start, end) {
        (Some(a), Some(b)) => if a >= 0 && b >= 0 {
            let x = a as u32;
            let y = b as u32;
            if x <= y {
                Some(LineRange { start_line: x, end_line: y })
            } else {
                Some(LineRange { start_line: y, end_line: x })
            }
        } else {
            None
        },
        _ => None,
    }
}

/// The optional list is that of the one range, where there is one.
pub open spec fn lists_range(ranges: Option<Vec<LineRange>>, range: Option<LineRange>) -> bool {
    match range {
        Some(r) => ranges is Some && ranges->0@ == seq![r],
        None => ranges is None,
    }
}

/// The optional list is that of the goals, where there are any.
pub open spec fn lists_goals(list: Option<Vec<ContextGoal>>, goals: Seq<ContextGoal>) -> bool {
    if goals.len() == 0 {
        list is None
    } else {
        list is Some && list->0@ == goals
    }
}

fn copy_goals(goals: &Vec<ContextGoal>) -> (r: Option<Vec<ContextGoal>>)
    ensures
        lists_goals(r, goals@),
{
    if goals.len() == 0 {
        return None;
    }
    let mut out: Vec<ContextGoal> = Vec::new();
    let mut i: usize = 0;
    assert(goals@.take(0) =~= out@);
    while i < goals.len()
        invariant
            i <= goals@.len(),
            out@ == goals@.take(i as int),
        decreases goals.len() - i,
    {
        assert(goals@.take(i + 1) =~= goals@.take(i as int).push(goals@[i as int]));
        out.push(goals[i]);
        i += 1;
    }
    assert(goals@.take(i as int) =~= goals@);
    Some(out)
}

/// What is said where a search found nothing to bundle.
pub const NOTHING_TO_BUNDLE: &'static str =
    "bundle attachment skipped: semantic search returned no results";

/// The bundle around the first match of a search.
pub fn derive_bundle_params_from_search(
    search: &SemanticSearchRequest,
    shared: &SharedBudget,
    response: &SemanticSearchResponse,
) -> (r: Result<ContextBundleParams, String>)
    ensures
        match r {
            Ok(p) => {
                &&& response.results@.len() > 0
                &&& p.root == search.root
                &&& p.database_name == search.database_name
                &&& p.file == response.results@[0].path
                &&& p.symbol is None
                &&& p.max_snippets is None
                &&& p.max_neighbors == Some(DEFAULT_NEIGHBOR_LIMIT_HINT)
                &&& p.budget_tokens == shared.bundle_tokens
                &&& lists_range(
                    p.ranges,
                    match_range(response.results@[0].line_start, response.results@[0].line_end),
                )
                &&& p.focus_line == positive_line(response.results@[0].line_start)
                &&& p.query is None
                &&& lists_goals(p.context_goals, response.context_goals@)
            },
            Err(warning) => response.results@.len() == 0 && warning@ == NOTHING_TO_BUNDLE@,
        },
{
    if response.results.len() == 0 {
        return Err(NOTHING_TO_BUNDLE.to_owned());
    }
    let top = &response.results[0];
    let focus_line = keep_positive(top.line_start);
    let ranges = match (top.line_start, top.line_end) {
        (Some(a), Some(b)) => if a >= 0 && b >= 0 {
            let x: u32 = a as u32;
            let y: u32 = b as u32;
            let range = if x <= y {
                LineRange { start_line: x, end_line: y }
            } else {
                LineRange { start_line: y, end_line: x }
            };
            let mut list: Vec<LineRange> = Vec::new();
            list.push(range);
            assert(list@ =~= seq![range]);
            Some(list)
        } else {
            None
        },
        _ => None,
    };
    Ok(
        ContextBundleParams {
            root: search.root.clone(),
            database_name: search.database_name.clone(),
            file: top.path.clone(),
            symbol: None,
            max_snippets: None,
            max_neighbors: Some(DEFAULT_NEIGHBOR_LIMIT_HINT),
            budget_tokens: shared.bundle_tokens,
            ranges,
            focus_line,
            query: None,
            context_goals: copy_goals(&response.context_goals),
        },
    )
}

/// Fills in what the surroundings, the search and the shared budget say of a bundle.
fn complete_bundle(
    params: ContextBundleParams,
    snapshot: &EnvironmentSnapshot,
    search: &SemanticSearchRequest,
    response: &SemanticSearchResponse,
) -> (r: ContextBundleParams)
    ensures
        r == (ContextBundleParams {
            root: or_else(params.root, snapshot.cwd),
            max_snippets: or_else(params.max_snippets, Some(DEFAULT_SNIPPET_LIMIT_HINT)),
            max_neighbors: or_else(params.max_neighbors, Some(DEFAULT_NEIGHBOR_LIMIT_HINT)),
            budget_tokens: or_else(
                params.budget_tokens,
                Some(
                    budget_of(
                        snapshot.bundle_budget_override,
                        snapshot.remaining_context_tokens,
                    ) as u32,
                ),
            ),
            query: or_else(params.query, Some(search.query)),
            context_goals: r.context_goals,
            ..params
        }),
        match params.context_goals {
            Some(_) => r.context_goals == params.context_goals,
            None => lists_goals(r.context_goals, response.context_goals@),
        },
{
    let mut out = params;
    snapshot.apply_bundle_defaults(&mut out);
    if out.context_goals.is_none() {
        out.context_goals = copy_goals(&response.context_goals);
    }
    if out.query.is_none() {
        out.query = Some(search.query.clone());
    }
    out
}

/// The parameters of the attached bundle: those that the caller gives, else those around
/// the first match, completed; their budget is the shared one.
pub fn bundle_attachment_params(
    snapshot: &EnvironmentSnapshot,
    search: &SemanticSearchRequest,
    shared: &SharedBudget,
    bundle_override: Option<ContextBundleParams>,
    response: &SemanticSearchResponse,
) -> (r: Result<ContextBundleParams, String>)
    ensures
        match r {
            Ok(p) => {
                &&& p.budget_tokens == Some(
                    shared_bundle_budget(
                        *shared,
                        snapshot.bundle_budget_override,
                        snapshot.remaining_context_tokens,
                    ) as u32,
                )
                &&& match bundle_override {
                    Some(given) => {
                        &&& p == (ContextBundleParams {
                            root: or_else(given.root, snapshot.cwd),
                            max_snippets: or_else(
                                given.max_snippets,
                                Some(DEFAULT_SNIPPET_LIMIT_HINT),
                            ),
                            max_neighbors: or_else(
                                given.max_neighbors,
                                Some(DEFAULT_NEIGHBOR_LIMIT_HINT),
                            ),
                            budget_tokens: p.budget_tokens,
                            query: or_else(given.query, Some(search.query)),
                            context_goals: p.context_goals,
                            ..given
                        })
                        &&& match given.context_goals {
                            Some(_) => p.context_goals == given.context_goals,
                            None => lists_goals(p.context_goals, response.context_goals@),
                        }
                    },
                    None => {
                        &&& response.results@.len() > 0
                        &&& p.root == or_else(search.root, snapshot.cwd)
                        &&& p.database_name == search.database_name
                        &&& p.file == response.results@[0].path
                        &&& p.symbol is None
                        &&& p.max_snippets == Some(DEFAULT_SNIPPET_LIMIT_HINT)
                        &&& p.max_neighbors == Some(DEFAULT_NEIGHBOR_LIMIT_HINT)
                        &&& lists_range(
                            p.ranges,
                            match_range(
                                response.results@[0].line_start,
                                response.results@[0].line_end,
                            ),
                        )
                        &&& p.focus_line == positive_line(response.results@[0].line_start)
                        &&& p.query == Some(search.query)
                        &&& lists_goals(p.context_goals, response.context_goals@)
                    },
                }
            },
            Err(warning) => bundle_override is None && response.results@.len() == 0 && warning@
                == NOTHING_TO_BUNDLE@,
        },
{
    let base = match bundle_override {
        Some(given) => given,
        None => match derive_bundle_params_from_search(search, shared, response) {
            Ok(derived) => derived,
            Err(warning) => return Err(warning),
        },
    };
    let mut out = complete_bundle(base, snapshot, search, response);
    out.budget_tokens = shared.bundle_budget_hint(snapshot);
    Ok(out)
}

// ---------------------------------------------------------------------------
// Lookups
// ---------------------------------------------------------------------------

/// The text holds something besides white space.
pub open spec fn is_filled(value: Option<Seq<char>>) -> bool {
    match value {
        Some(text) => trimmed(text).len() > 0,
        None => false,
    }
}

/// Whether the text holds something besides white space.
pub fn has_text(value: &Option<String>) -> (r: bool)
    ensures
        r == is_filled(text_of(*value)),
{
    match value {
        Some(text) => !trim_str(text.as_str()).as_str().is_empty(),
        None => false,
    }
}

/// The mode of a lookup: the one that is asked for, else a search where there is a query, a
/// bundle where there is only a file, and a search where there is neither.
pub open spec fn lookup_mode(
    mode: Option<Seq<char>>,
    query: Option<Seq<char>>,
    file: Option<Seq<char>>,
) -> Seq<char> {
    match mode {
        Some(m) => m,
        None => if !is_filled(query) && is_filled(file) {
            "bundle"@
        } else {
            "search"@
        },
    }
}

/// The mode of a lookup.
pub fn resolve_lookup_mode(params: &CodeLookupParams) -> (r: String)
    ensures
        r@ == lookup_mode(text_of(params.mode), text_of(params.query), text_of(params.file)),
{
    match &params.mode {
        Some(mode) => mode.clone(),
        None => if !has_text(&params.query) && has_text(&params.file) {
            "bundle".to_owned()
        } else {
            "search".to_owned()
        },
    }
}

/// The filters of a search that are set.
#[derive(Debug)]
pub struct FilterSummary {
    pub language: Option<String>,
    pub path_prefix: Option<String>,
    pub path_contains: Option<String>,
    pub classification: Option<Classification>,
}

/// The text, unless it is blank.
pub open spec fn unless_blank(value: Option<Seq<char>>) -> Option<Seq<char>> {
    if is_filled(value) {
        value
    } else {
        None
    }
}

fn keep_unless_blank(value: &Option<String>) -> (r: Option<String>)
    ensures
        text_of(r) == unless_blank(text_of(*value)),
{
    match value {
        Some(text) => if trim_str(text.as_str()).as_str().is_empty() {
            None
        } else {
            Some(text.clone())
        },
        None => None,
    }
}

/// The filters that are set; `None` where none is.
pub fn summarize_filters(
    language: &Option<String>,
    path_prefix: &Option<String>,
    path_contains: &Option<String>,
    classification: Option<Classification>,
) -> (r: Option<FilterSummary>)
    ensures
        match r {
            Some(f) => {
                &&& text_of(f.language) == unless_blank(text_of(*language))
                &&& text_of(f.path_prefix) == unless_blank(text_of(*path_prefix))
                &&& text_of(f.path_contains) == unless_blank(text_of(*path_contains))
                &&& f.classification == classification
                &&& f.language is Some || f.path_prefix is Some || f.path_contains is Some
                    || f.classification is Some
            },
            None => !is_filled(text_of(*language)) && !is_filled(text_of(*path_prefix))
                && !is_filled(text_of(*path_contains)) && classification is None,
        },
{
    let language = keep_unless_blank(language);
    let path_prefix = keep_unless_blank(path_prefix);
    let path_contains = keep_unless_blank(path_contains);
    if language.is_none() && path_prefix.is_none() && path_contains.is_none()
        && classification.is_none() {
        None
    } else {
        Some(FilterSummary { language, path_prefix, path_contains, classification })
    }
}

/// What a lookup comes to.
#[derive(Debug)]
pub enum LookupStep {
    /// It is left out.
    Skip { warning: String },
    /// The results of the search are used again.
    Reuse { mode: String, filters: Option<FilterSummary> },
    /// A bundle is built.
    Bundle { mode: String, params: ContextBundleParams },
}

/// The lookup that goes with a search where the caller gives none.
pub open spec fn is_search_lookup(
    p: CodeLookupParams,
    search: SemanticSearchRequest,
    shared: SharedBudget,
) -> bool {
    &&& text_of(p.mode) == Some("search"@)
    &&& p.root == search.root
    &&& p.database_name == search.database_name
    &&& p.query == Some(search.query)
    &&& p.file is None
    &&& p.symbol is None
    &&& p.ranges is None
    &&& p.focus_line is None
    &&& p.max_snippets is None
    &&& p.max_neighbors is None
    &&& p.budget_tokens == shared.lookup_tokens
    &&& p.limit == search.limit
    &&& p.model == search.model
    &&& p.language == search.language
    &&& p.path_prefix == search.path_prefix
    &&& p.path_contains == search.path_contains
    &&& p.classification == search.classification
    &&& p.summary_mode == search.summary_mode
    &&& p.max_context_before == search.max_context_before
    &&& p.max_context_after == search.max_context_after
}

/// The lookup that goes with a search where the caller gives none.
pub fn search_lookup(search: &SemanticSearchRequest, shared: &SharedBudget) -> (r: CodeLookupParams)
    ensures
        is_search_lookup(r, *search, *shared),
{
    CodeLookupParams {
        root: search.root.clone(),
        database_name: search.database_name.clone(),
        mode: Some("search".to_owned()),
        query: Some(search.query.clone()),
        file: None,
        symbol: None,
        ranges: None,
        focus_line: None,
        max_snippets: None,
        max_neighbors: None,
        budget_tokens: shared.lookup_tokens,
        limit: search.limit,
        model: search.model.clone(),
        language: search.language.clone(),
        path_prefix: search.path_prefix.clone(),
        path_contains: search.path_contains.clone(),
        classification: search.classification,
        summary_mode: search.summary_mode,
        max_context_before: search.max_context_before,
        max_context_after: search.max_context_after,
    }
}

/// What is said of a lookup that searches for nothing.
pub const LOOKUP_WITHOUT_QUERY: &'static str =
    "lookup attachment skipped: query required for search mode";

/// What is said of a lookup that bundles nothing.
pub const LOOKUP_WITHOUT_FILE: &'static str =
    "lookup attachment skipped: bundle mode requires a file path";

/// What a lookup with these parameters comes to: `p` is what the caller gives or what goes
/// with the search.
pub open spec fn is_lookup_step(
    step: LookupStep,
    p: CodeLookupParams,
    snapshot: EnvironmentSnapshot,
    search: SemanticSearchRequest,
    response: SemanticSearchResponse,
) -> bool {
    let mode = lookup_mode(text_of(p.mode), text_of(p.query), text_of(p.file));
    if mode == "search"@ {
        if !is_filled(text_of(p.query)) {
            step matches LookupStep::Skip { warning } && warning@ == LOOKUP_WITHOUT_QUERY@
        } else {
            step matches LookupStep::Reuse { mode: m, filters } && m@ == mode && match filters {
                Some(f) => {
                    &&& text_of(f.language) == unless_blank(text_of(p.language))
                    &&& text_of(f.path_prefix) == unless_blank(text_of(p.path_prefix))
                    &&& text_of(f.path_contains) == unless_blank(text_of(p.path_contains))
                    &&& f.classification == p.classification
                },
                None => !is_filled(text_of(p.language)) && !is_filled(text_of(p.path_prefix))
                    && !is_filled(text_of(p.path_contains)) && p.classification is None,
            }
        }
    } else if mode == "bundle"@ {
        if p.file is None && p.query is None {
            step matches LookupStep::Skip { warning } && warning@ == LOOKUP_WITHOUT_FILE@
        } else {
            step matches LookupStep::Bundle { mode: m, params: b } && {
                &&& m@ == mode
                &&& b.root == or_else(p.root, snapshot.cwd)
                &&& b.database_name == p.database_name
                &&& b.file == or_else(p.file, p.query)->0
                &&& b.symbol == p.symbol
                &&& b.max_snippets == or_else(
                    or_else(p.max_snippets, p.limit),
                    Some(DEFAULT_SNIPPET_LIMIT_HINT),
                )
                &&& b.max_neighbors == or_else(p.max_neighbors, Some(DEFAULT_NEIGHBOR_LIMIT_HINT))
                &&& b.budget_tokens == or_else(
                    p.budget_tokens,
                    Some(
                        budget_of(
                            snapshot.bundle_budget_override,
                            snapshot.remaining_context_tokens,
                        ) as u32,
                    ),
                )
                &&& b.ranges == p.ranges
                &&& b.focus_line == p.focus_line
                &&& b.query == Some(search.query)
                &&& lists_goals(b.context_goals, response.context_goals@)
            }
        }
    } else {
        step matches LookupStep::Skip { warning } && warning@
            == "lookup attachment skipped: mode '"@ + mode + "' is not supported."@
    }
}

/// What a lookup with these parameters comes to.
pub fn plan_lookup(
    snapshot: &EnvironmentSnapshot,
    search: &SemanticSearchRequest,
    given: CodeLookupParams,
    response: &SemanticSearchResponse,
) -> (r: LookupStep)
    ensures
        is_lookup_step(r, given, *snapshot, *search, *response),
{
    let mut params = given;
    snapshot.apply_code_lookup_defaults(&mut params);
    let mode = resolve_lookup_mode(&params);
    if same_text(mode.as_str(), "search") {
        if !has_text(&params.query) {
            return LookupStep::Skip { warning: LOOKUP_WITHOUT_QUERY.to_owned() };
        }
        let filters = summarize_filters(
            &params.language,
            &params.path_prefix,
            &params.path_contains,
            params.classification,
        );
        return LookupStep::Reuse { mode, filters };
    }
    if same_text(mode.as_str(), "bundle") {
        let file = match params.file {
            Some(file) => file,
            None => match params.query {
                Some(query) => query,
                None => return LookupStep::Skip { warning: LOOKUP_WITHOUT_FILE.to_owned() },
            },
        };
        let max_snippets = match params.max_snippets {
            Some(n) => Some(n),
            None => params.limit,
        };
        let base = ContextBundleParams {
            root: params.root,
            database_name: params.database_name,
            file,
            symbol: params.symbol,
            max_snippets,
            max_neighbors: params.max_neighbors,
            budget_tokens: params.budget_tokens,
            ranges: params.ranges,
            focus_line: params.focus_line,
            query: None,
            context_goals: None,
        };
        let bundle = complete_bundle(base, snapshot, search, response);
        return LookupStep::Bundle { mode, params: bundle };
    }
    let mut warning = "lookup attachment skipped: mode '".to_owned();
    warning.append(mode.as_str());
    warning.append("' is not supported.");
    LookupStep::Skip { warning }
}

/// The attachment whose making failed.
#[derive(Debug, Clone, Copy, PartialEq, Eq, Structural)]
pub enum AttachmentStage {
    Bundle,
    BundleResult,
    Lookup,
    LookupBundle,
    LookupBundleResult,
}

/// What is said of an attachment whose making failed.
pub open spec fn failure_prefix(stage: AttachmentStage) -> Seq<char> {
    match stage {
        AttachmentStage::Bundle => "bundle attachment failed: "@,
        AttachmentStage::BundleResult => "bundle attachment failed to build result: "@,
        AttachmentStage::Lookup => "lookup attachment failed: "@,
        AttachmentStage::LookupBundle => "lookup bundle attachment failed: "@,
        AttachmentStage::LookupBundleResult => "lookup bundle attachment failed to build result: "@,
    }
}

/// An attachment whose making failed.
pub fn failed_attachment(stage: AttachmentStage, error: &str) -> (r: AttachmentResult)
    ensures
        r matches AttachmentResult::Failed { warning } && warning@ == failure_prefix(stage)
            + error@,
{
    let mut warning = match stage {
        AttachmentStage::Bundle => "bundle attachment failed: ".to_owned(),
        AttachmentStage::BundleResult => "bundle attachment failed to build result: ".to_owned(),
        AttachmentStage::Lookup => "lookup attachment failed: ".to_owned(),
        AttachmentStage::LookupBundle => "lookup bundle attachment failed: ".to_owned(),
        AttachmentStage::LookupBundleResult =>
            "lookup bundle attachment failed to build result: ".to_owned(),
    };
    warning.append(error);
    AttachmentResult::Failed { warning }
}

/// What is said of an attached bundle.
pub fn bundle_line(file: &str) -> (r: String)
    ensures
        r@ == "bundle attachment produced context for "@ + file@,
{
    let mut out = "bundle attachment produced context for ".to_owned();
    out.append(file);
    out
}

/// What is said of a lookup that uses the results of the search again.
pub fn lookup_search_line(count: usize) -> (r: String)
    ensures
        r@ == "lookup attachment (search mode) reused "@ + decimal(count as nat)
            + " semantic result(s)."@,
{
    let mut out = "lookup attachment (search mode) reused ".to_owned();
    push_decimal(&mut out, count as u64);
    out.append(" semantic result(s).");
    out
}

/// What is said of a lookup that built a bundle.
pub fn lookup_bundle_line(file: &str) -> (r: String)
    ensures
        r@ == "lookup attachment (bundle mode) produced context for "@ + file@,
{
    let mut out = "lookup attachment (bundle mode) produced context for ".to_owned();
    out.append(file);
    out
}

// ---------------------------------------------------------------------------
// What holds of attachments
// ---------------------------------------------------------------------------

/// A limit is kept to, and takes nothing away from less.
pub proof fn law_capped(budget: int, limit: u32)
    ensures
        capped(budget, Some(limit)) <= limit,
        budget <= limit ==> capped(budget, Some(limit)) == budget,
        budget > limit ==> capped(budget, Some(limit)) == limit,
        capped(budget, None) == budget,
{
}

/// An attachment that was made is there with what goes with it. One that came to nothing
/// changes nothing but how it came out, and is warned of.
pub proof fn law_attachment(before: AttachedPart, result: AttachmentResult)
    ensures
        result matches AttachmentResult::Success { structured, meta, summary } ==> part_after(
            before,
            result,
        ).value == Some(structured) && part_after(before, result).meta == meta && part_after(
            before,
            result,
        ).summary == Some(summary) && part_after(before, result).outcome
            == AttachmentOutcome::Success && warning_of(result).len() == 0,
        result matches AttachmentResult::Skipped { warning } ==> part_after(before, result).outcome
            == AttachmentOutcome::Skipped && part_after(before, result).value == before.value
            && warning_of(result) == seq![warning@],
        result matches AttachmentResult::Failed { warning } ==> part_after(before, result).outcome
            == AttachmentOutcome::Failed && part_after(before, result).value == before.value
            && warning_of(result) == seq![warning@],
{
}

/// The lines of a match are in order, whichever of them is named first.
pub proof fn law_match_range(a: i64, b: i64)
    requires
        0 <= a <= u32::MAX,
        0 <= b <= u32::MAX,
    ensures
        match_range(Some(a), Some(b)) matches Some(r) && r.start_line <= r.end_line && (r.start_line
            == a && r.end_line == b || r.start_line == b && r.end_line == a),
        match_range(Some(a), None) is None,
        match_range(None, Some(b)) is None,
        positive_line(Some(a)) == (if a > 0 {
            Some(a as u32)
        } else {
            None
        }),
        positive_line(None) is None,
{
}

/// A line before the first is no line.
pub proof fn law_no_line(n: i64, m: i64)
    requires
        n < 0,
    ensures
        positive_line(Some(n)) is None,
        match_range(Some(n), Some(m)) is None,
        match_range(Some(m), Some(n)) is None,
{
}

/// A lookup is the one that is asked for. Without a word it is a search, unless there is a
/// file and nothing to search for.
pub proof fn law_lookup_mode(mode: Seq<char>, query: Option<Seq<char>>, file: Option<Seq<char>>)
    ensures
        lookup_mode(Some(mode), query, file) == mode,
        is_filled(query) ==> lookup_mode(None, query, file) == "search"@,
        !is_filled(file) ==> lookup_mode(None, query, file) == "search"@,
        !is_filled(query) && is_filled(file) ==> lookup_mode(None, query, file) == "bundle"@,
        is_filled(Some(mode)) <==> trimmed(mode).len() > 0,
        !is_filled(None),
{
}

/// A lookup by search without a query and one by bundle without a file or query are skipped,
/// and so is one in any other mode. A search uses the results of the search again, and a
/// bundle is one of the file, or of what the query names.
pub proof fn law_lookup_step(
    step: LookupStep,
    p: CodeLookupParams,
    snapshot: EnvironmentSnapshot,
    search: SemanticSearchRequest,
    response: SemanticSearchResponse,
)
    requires
        is_lookup_step(step, p, snapshot, search, response),
    ensures
        ({
            let mode = lookup_mode(text_of(p.mode), text_of(p.query), text_of(p.file));
            &&& step is Reuse <==> mode == "search"@ && is_filled(text_of(p.query))
            &&& step is Bundle <==> mode == "bundle"@ && (p.file is Some || p.query is Some)
            &&& step matches LookupStep::Bundle { mode: _, params } ==> (p.file matches Some(f)
                ==> params.file == f)
            &&& step matches LookupStep::Bundle { mode: _, params } ==> p.file is None ==> (
            p.query matches Some(q) ==> params.file == q)
            &&& step matches LookupStep::Bundle { mode: _, params } ==> (p.budget_tokens matches Some(
                n,
            ) ==> params.budget_tokens == Some(n))
            &&& step matches LookupStep::Bundle { mode: _, params } ==> params.symbol == p.symbol
                && params.ranges == p.ranges && params.focus_line == p.focus_line
        }),
{
    reveal_strlit("search");
    reveal_strlit("bundle");
    assert("search"@[0] != "bundle"@[0]);
}

/// The lookup that goes with a search asks for the same: the same query in the same
/// database, through the same filters.
pub proof fn law_search_lookup(
    p: CodeLookupParams,
    search: SemanticSearchRequest,
    shared: SharedBudget,
)
    requires
        is_search_lookup(p, search, shared),
    ensures
        p.query == Some(search.query),
        p.root == search.root && p.database_name == search.database_name,
        p.language == search.language && p.path_prefix == search.path_prefix && p.path_contains
            == search.path_contains && p.classification == search.classification,
        p.limit == search.limit && p.model == search.model,
        p.budget_tokens == shared.lookup_tokens,
        lookup_mode(text_of(p.mode), text_of(p.query), text_of(p.file)) == "search"@,
{
}

/// A blank text is none, and metadata that is JSON's `null` is none.
pub proof fn law_blank(text: Seq<char>)
    ensures
        trimmed(text).len() == 0 ==> unless_blank(Some(text)) is None,
        trimmed(text).len() > 0 ==> unless_blank(Some(text)) == Some(text),
        unless_blank(None) is None,
        filled_meta(Some("null"@)) is None,
        text != "null"@ ==> filled_meta(Some(text)) == Some(text),
        filled_meta(None) is None,
{
}

/// What is said of a failed attachment names what failed: a bundle, a lookup, or the bundle of
/// a lookup, and whether its result could not be built.
pub proof fn law_failures_named(stage: AttachmentStage)
    ensures
        stage is Bundle || stage is BundleResult ==> "bundle attachment failed"@.is_prefix_of(
            failure_prefix(stage),
        ),
        stage is Lookup ==> failure_prefix(stage) == "lookup attachment failed: "@,
        stage is LookupBundle || stage is LookupBundleResult
            ==> "lookup bundle attachment failed"@.is_prefix_of(failure_prefix(stage)),
        stage is BundleResult || stage is LookupBundleResult <==> "to build result: "@.is_suffix_of(
            failure_prefix(stage),
        ),
{
    reveal_strlit("bundle attachment failed");
    reveal_strlit("lookup bundle attachment failed");
    reveal_strlit("to build result: ");
    reveal_strlit("bundle attachment failed: ");
    reveal_strlit("bundle attachment failed to build result: ");
    reveal_strlit("lookup attachment failed: ");
    reveal_strlit("lookup bundle attachment failed: ");
    reveal_strlit("lookup bundle attachment failed to build result: ");
    let p = failure_prefix(stage);
    let a = "bundle attachment failed"@;
    let b = "lookup bundle attachment failed"@;
    let e = "to build result: "@;
    if stage is Bundle || stage is BundleResult {
        assert(p.subrange(0, a.len() as int) =~= a);
    }
    if stage is LookupBundle || stage is LookupBundleResult {
        assert(p.subrange(0, b.len() as int) =~= b);
    }
    if stage is BundleResult || stage is LookupBundleResult {
        assert(p.subrange(p.len() - e.len(), p.len() as int) =~= e);
    } else {
        assert(p[p.len() - 3] == 'd');
        assert(e[e.len() - 3] == 't');
        if e.is_suffix_of(p) {
            assert(p.subrange(p.len() - e.len(), p.len() as int)[e.len() - 3] == p[p.len() - 3]);
        }
    }
}

/// An attachment that was made came out well, one that was left out was skipped, and one that
/// could not be made failed.
pub proof fn law_outcomes(result: AttachmentResult)
    ensures
        outcome_of(result) is Success <==> result is Success,
        outcome_of(result) is Skipped <==> result is Skipped,
        outcome_of(result) is Failed <==> result is Failed,
{
}

/// What a caller configures is run though it was not asked for, and what is asked for is run.
pub proof fn law_attachments_run(
    request: UnifiedSemanticSearchRequest,
    plan: OrchestrationPlan,
    bundle: bool,
    lookup: bool,
)
    requires
        call_ensures(plan_orchestration, (request,), plan),
        call_ensures(OrchestrationPlan::should_run_bundle, (&plan,), bundle),
        call_ensures(OrchestrationPlan::should_run_lookup, (&plan,), lookup),
    ensures
        bundle <==> request.attachments.bundle || request.bundle is Some,
        lookup <==> request.attachments.lookup || request.lookup is Some,
        plan.search == request.search,
        request.shared_budget is None ==> plan.shared_budget.total_tokens is None
            && plan.shared_budget.bundle_tokens is None && plan.shared_budget.lookup_tokens is None,
        request.shared_budget matches Some(s) ==> plan.shared_budget.total_tokens == s.total_tokens
            && plan.shared_budget.bundle_tokens == s.bundle_tokens
            && plan.shared_budget.lookup_tokens == s.lookup_tokens,
{
}

} // verus!
