//! A server that answers requests line by line: which request asks for what, and how it
//! is told that a request cannot be met.

use vstd::prelude::*;
use crate::text::{same_text, trim_str, trimmed};

verus! {

/// The request is no JSON.
pub const PARSE_ERROR: i64 = -32700;

/// There is no such method.
pub const METHOD_NOT_FOUND: i64 = -32601;

/// The parameters do not fit the method.
pub const INVALID_PARAMS: i64 = -32602;

/// Something failed inside.
pub const INTERNAL_ERROR: i64 = -32603;

/// The protocol that the server speaks.
pub const PROTOCOL_VERSION: &'static str = "2024-05-31";

/// What a request asks for.
#[derive(Debug, Clone, Copy, PartialEq, Eq, Structural)]
pub enum Route {
    Initialize,
    ListTools,
    CallTool,
    ListPrompts,
    GetPrompt,
    Ping,
    Shutdown,
    /// A notification that means nothing here: there is no answer.
    Ignore,
    /// A method that does not exist.
    Unknown,
}

/// What a request asks for; one without an identifier is a notification.
pub open spec fn route_of(method: Seq<char>, has_id: bool) -> Route {
    if method == "initialize"@ {
        Route::Initialize
    } else if method == "list_tools"@ {
        Route::ListTools
    } else if method == "call_tool"@ {
        Route::CallTool
    } else if method == "list_prompts"@ {
        Route::ListPrompts
    } else if method == "get_prompt"@ {
        Route::GetPrompt
    } else if method == "ping"@ {
        Route::Ping
    } else if method == "shutdown"@ {
        Route::Shutdown
    } else if has_id {
        Route::Unknown
    } else {
        Route::Ignore
    }
}

/// What a request asks for.
pub fn route(method: &str, has_id: bool) -> (r: Route)
    ensures
        r == route_of(method@, has_id),
{
    if same_text(method, "initialize") {
        Route::Initialize
    } else if same_text(method, "list_tools") {
        Route::ListTools
    } else if same_text(method, "call_tool") {
        Route::CallTool
    } else if same_text(method, "list_prompts") {
        Route::ListPrompts
    } else if same_text(method, "get_prompt") {
        Route::GetPrompt
    } else if same_text(method, "ping") {
        Route::Ping
    } else if same_text(method, "shutdown") {
        Route::Shutdown
    } else if has_id {
        Route::Unknown
    } else {
        Route::Ignore
    }
}

/// Every request with an identifier is answered.
pub proof fn law_requests_answered(method: Seq<char>)
    ensures
        route_of(method, true) != Route::Ignore,
{
}

/// Whether a line holds a request: one that is blank does not.
pub fn holds_request(line: &str) -> (r: bool)
    ensures
        r == (trimmed(line@).len() > 0),
{
    !trim_str(line).as_str().is_empty()
}

/// The position of a name in a list of names.
pub fn find_name(names: &Vec<String>, name: &str) -> (r: Option<usize>)
    ensures
        match r {
            Some(i) => i < names@.len() && names@[i as int]@ == name@ && forall|k: int|
                0 <= k < i ==> (#[trigger] names@[k])@ != name@,
            None => forall|k: int| 0 <= k < names@.len() ==> (#[trigger] names@[k])@ != name@,
        },
{
    let mut i: usize = 0;
    while i < names.len()
        invariant
            i <= names@.len(),
            forall|k: int| 0 <= k < i ==> (#[trigger] names@[k])@ != name@,
        decreases names.len() - i,
    {
        if same_text(names[i].as_str(), name) {
            return Some(i);
        }
        i += 1;
    }
    None
}

// ---------------------------------------------------------------------------
// Prompts
// ---------------------------------------------------------------------------

/// A prompt with its one message.
#[derive(Debug)]
pub struct PromptDefinition {
    pub name: String,
    pub description: String,
    pub role: String,
    pub text: String,
}

/// What the one prompt says.
pub const GUIDANCE: &'static str =
    "Run ingest_codebase when you first connect to a project and after you modify files. The server stores a SQLite database (default .mcp-index.sqlite) at the workspace root. Use code_lookup for retrieving files or substring matches once an index exists, and index_status to confirm the most recent ingest summary.";

/// The prompts that the server offers.
pub fn default_prompts() -> (r: Vec<PromptDefinition>)
    ensures
        r@.len() == 1,
        r@[0].name@ == "indexing_guidance"@,
        r@[0].description@ == "Reminders for keeping the SQLite index current."@,
        r@[0].role@ == "system"@,
        r@[0].text@ == GUIDANCE@,
{
    let mut out: Vec<PromptDefinition> = Vec::new();
    out.push(
        PromptDefinition {
            name: "indexing_guidance".to_owned(),
            description: "Reminders for keeping the SQLite index current.".to_owned(),
            role: "system".to_owned(),
            text: GUIDANCE.to_owned(),
        },
    );
    out
}

/// The first prompt of a name.
pub fn find_prompt<'a>(prompts: &'a Vec<PromptDefinition>, name: &str) -> (r: Option<
    &'a PromptDefinition,
>)
    ensures
        match r {
            Some(p) => p.name@ == name@ && exists|i: int|
                0 <= i < prompts@.len() && *p == prompts@[i] && forall|k: int|
                    0 <= k < i ==> (#[trigger] prompts@[k]).name@ != name@,
            None => forall|k: int|
                0 <= k < prompts@.len() ==> (#[trigger] prompts@[k]).name@ != name@,
        },
{
    let mut i: usize = 0;
    while i < prompts.len()
        invariant
            i <= prompts@.len(),
            forall|k: int| 0 <= k < i ==> (#[trigger] prompts@[k]).name@ != name@,
        decreases prompts.len() - i,
    {
        if same_text(prompts[i].name.as_str(), name) {
            assert(prompts@[i as int] == prompts@[i as int]);
            return Some(&prompts[i]);
        }
        i += 1;
    }
    None
}

// ---------------------------------------------------------------------------
// Problems
// ---------------------------------------------------------------------------

/// Why a request cannot be met.
#[derive(Debug)]
pub enum RpcProblem {
    /// It is no JSON.
    Unreadable(String),
    /// There is no such method.
    UnknownMethod(String),
    /// The call of a tool has other parameters than it should.
    BadCall(String),
    /// There is no such tool.
    UnknownTool(String),
    /// The answer of a tool cannot be written.
    BadResult(String),
    /// The tool failed.
    ToolFailed { name: String, error: String },
    /// The request for a prompt has other parameters than it should.
    BadPromptRequest(String),
    /// There is no such prompt.
    UnknownPrompt(String),
}

impl RpcProblem {
    /// The number of the problem.
    pub fn code(&self) -> (r: i64)
        ensures
            r == match *self {
                RpcProblem::Unreadable(_) => PARSE_ERROR,
                RpcProblem::UnknownMethod(_) => METHOD_NOT_FOUND,
                RpcProblem::BadCall(_) => INVALID_PARAMS,
                RpcProblem::UnknownTool(_) => INVALID_PARAMS,
                RpcProblem::BadResult(_) => INTERNAL_ERROR,
                RpcProblem::ToolFailed { .. } => INTERNAL_ERROR,
                RpcProblem::BadPromptRequest(_) => INVALID_PARAMS,
                RpcProblem::UnknownPrompt(_) => INVALID_PARAMS,
            },
    {
        match self {
            RpcProblem::Unreadable(_) => PARSE_ERROR,
            RpcProblem::UnknownMethod(_) => METHOD_NOT_FOUND,
            RpcProblem::BadCall(_) => INVALID_PARAMS,
            RpcProblem::UnknownTool(_) => INVALID_PARAMS,
            RpcProblem::BadResult(_) => INTERNAL_ERROR,
            RpcProblem::ToolFailed { .. } => INTERNAL_ERROR,
            RpcProblem::BadPromptRequest(_) => INVALID_PARAMS,
            RpcProblem::UnknownPrompt(_) => INVALID_PARAMS,
        }
    }

    /// The problem in words.
    pub open spec fn text(&self) -> Seq<char> {
        match *self {
            RpcProblem::Unreadable(error) => "Failed to parse request: "@ + error@,
            RpcProblem::UnknownMethod(method) => "Unknown method "@ + method@,
            RpcProblem::BadCall(error) => "Invalid call_tool parameters: "@ + error@,
            RpcProblem::UnknownTool(name) => "Unknown tool "@ + name@,
            RpcProblem::BadResult(error) => "Failed to serialise tool result: "@ + error@,
            RpcProblem::ToolFailed { name, error } => "Tool "@ + name@ + " failed: "@ + error@,
            RpcProblem::BadPromptRequest(error) => "Invalid get_prompt parameters: "@ + error@,
            RpcProblem::UnknownPrompt(name) => "Prompt "@ + name@ + " not found"@,
        }
    }

    /// The problem in words.
    pub fn message(&self) -> (r: String)
        ensures
            r@ == self.text(),
    {
        match self {
            RpcProblem::Unreadable(error) => {
                let mut out = "Failed to parse request: ".to_owned();
                out.append(error.as_str());
                out
            },
            RpcProblem::UnknownMethod(method) => {
                let mut out = "Unknown method ".to_owned();
                out.append(method.as_str());
                out
            },
            RpcProblem::BadCall(error) => {
                let mut out = "Invalid call_tool parameters: ".to_owned();
                out.append(error.as_str());
                out
            },
            RpcProblem::UnknownTool(name) => {
                let mut out = "Unknown tool ".to_owned();
                out.append(name.as_str());
                out
            },
            RpcProblem::BadResult(error) => {
                let mut out = "Failed to serialise tool result: ".to_owned();
                out.append(error.as_str());
                out
            },
            RpcProblem::ToolFailed { name, error } => {
                let mut out = "Tool ".to_owned();
                out.append(name.as_str());
                out.append(" failed: ");
                out.append(error.as_str());
                out
            },
            RpcProblem::BadPromptRequest(error) => {
                let mut out = "Invalid get_prompt parameters: ".to_owned();
                out.append(error.as_str());
                out
            },
            RpcProblem::UnknownPrompt(name) => {
                let mut out = "Prompt ".to_owned();
                out.append(name.as_str());
                out.append(" not found");
                out
            },
        }
    }
}

/// A request is answered by its method, known methods with or without an identifier. Another
/// method is a problem where an answer is awaited, and is let pass where none is.
pub proof fn law_routes(method: Seq<char>, has_id: bool)
    ensures
        route_of(method, has_id) is Initialize <==> method == "initialize"@,
        route_of(method, has_id) is ListTools <==> method == "list_tools"@,
        route_of(method, has_id) is CallTool <==> method == "call_tool"@,
        route_of(method, has_id) is ListPrompts <==> method == "list_prompts"@,
        route_of(method, has_id) is GetPrompt <==> method == "get_prompt"@,
        route_of(method, has_id) is Ping <==> method == "ping"@,
        route_of(method, has_id) is Shutdown <==> method == "shutdown"@,
        route_of(method, has_id) is Unknown ==> has_id,
        route_of(method, has_id) is Ignore ==> !has_id,
{
    reveal_strlit("initialize");
    reveal_strlit("list_tools");
    reveal_strlit("call_tool");
    reveal_strlit("list_prompts");
    reveal_strlit("get_prompt");
    reveal_strlit("ping");
    reveal_strlit("shutdown");
    assert("initialize"@[0] == 'i' && "list_tools"@[0] == 'l' && "call_tool"@[0] == 'c');
    assert("list_prompts"@[0] == 'l' && "get_prompt"@[0] == 'g' && "ping"@[0] == 'p');
    assert("shutdown"@[0] == 's' && "list_tools"@[5] == 't' && "list_prompts"@[5] == 'p');
}

/// A problem tells what was not known, or why something failed.
pub proof fn law_problem_told(problem: RpcProblem)
    ensures
        problem matches RpcProblem::Unreadable(error) ==> error@.is_suffix_of(problem.text()),
        problem matches RpcProblem::UnknownMethod(method) ==> method@.is_suffix_of(
            problem.text(),
        ),
        problem matches RpcProblem::BadCall(error) ==> error@.is_suffix_of(problem.text()),
        problem matches RpcProblem::UnknownTool(name) ==> name@.is_suffix_of(problem.text()),
        problem matches RpcProblem::BadResult(error) ==> error@.is_suffix_of(problem.text()),
        problem matches RpcProblem::ToolFailed { name, error } ==> error@.is_suffix_of(
            problem.text(),
        ) && ("Tool "@ + name@).is_prefix_of(problem.text()),
        problem matches RpcProblem::BadPromptRequest(error) ==> error@.is_suffix_of(
            problem.text(),
        ),
        problem matches RpcProblem::UnknownPrompt(name) ==> ("Prompt "@ + name@).is_prefix_of(
            problem.text(),
        ),
{
    let t = problem.text();
    match problem {
        RpcProblem::Unreadable(e) => {
            assert(t.subrange(t.len() - e@.len(), t.len() as int) =~= e@);
        },
        RpcProblem::UnknownMethod(e) => {
            assert(t.subrange(t.len() - e@.len(), t.len() as int) =~= e@);
        },
        RpcProblem::BadCall(e) => {
            assert(t.subrange(t.len() - e@.len(), t.len() as int) =~= e@);
        },
        RpcProblem::UnknownTool(e) => {
            assert(t.subrange(t.len() - e@.len(), t.len() as int) =~= e@);
        },
        RpcProblem::BadResult(e) => {
            assert(t.subrange(t.len() - e@.len(), t.len() as int) =~= e@);
        },
        RpcProblem::ToolFailed { name, error } => {
            let head = "Tool "@ + name@;
            assert(t.subrange(t.len() - error@.len(), t.len() as int) =~= error@);
            assert(t.subrange(0, head.len() as int) =~= head);
        },
        RpcProblem::BadPromptRequest(e) => {
            assert(t.subrange(t.len() - e@.len(), t.len() as int) =~= e@);
        },
        RpcProblem::UnknownPrompt(e) => {
            let head = "Prompt "@ + e@;
            assert(t.subrange(0, head.len() as int) =~= head);
        },
    }
}

/// The numbers of the problems: a request that cannot be read, a method that is not known, a
/// call that cannot be met, and what fails inside.
pub proof fn law_problem_codes(problem: &RpcProblem, number: i64)
    requires
        call_ensures(RpcProblem::code, (problem,), number),
    ensures
        number == -32700 <==> *problem is Unreadable,
        number == -32601 <==> *problem is UnknownMethod,
        number == -32602 <==> *problem is BadCall || *problem is UnknownTool || *problem is
            BadPromptRequest || *problem is UnknownPrompt,
        number == -32603 <==> *problem is BadResult || *problem is ToolFailed,
{
}

} // verus!
