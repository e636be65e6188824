//! The decisions of serving one request: which page to render or compile next, and what to
//! answer, given what the previous step reported. The caller performs each action and
//! reports its outcome as the next event.
use vstd::prelude::*;

verus! {

/// Where serving a request stands.
#[derive(Debug, Clone, Copy, PartialEq, Eq)]
pub enum ServeState {
    /// Waiting to learn whether the route exists and is stale.
    Resolving,
    /// Rendering the not-found page.
    RenderingNotFound,
    /// Compiling the requested page.
    Compiling,
    /// Compiling the stylesheet.
    CompilingStyles,
    /// Rendering the error page.
    RenderingErrorPage,
    /// The response has been decided.
    Finished,
}

/// What the last step reported, as a mathematical value.
pub enum ServeEventModel {
    Route { found: bool, stale: bool },
    PageRendered { html: Seq<char> },
    Succeeded,
    Failed { message: Seq<char> },
    ErrorPageFailed { message: Seq<char>, error_var: Option<Seq<char>> },
}

/// What the last step reported.
#[derive(Debug)]
pub enum ServeEvent {
    /// The route resolved: whether its page exists, and whether its output is stale.
    Route { found: bool, stale: bool },
    /// The not-found or error page rendered to `html`.
    PageRendered { html: String },
    /// Compiling the page or the stylesheet succeeded.
    Succeeded,
    /// Rendering, compiling or styling failed; the error formatted for display.
    Failed { message: String },
    /// Rendering the error page failed too: its error's message, and the `error` variable as
    /// it stood afterwards.
    ErrorPageFailed { message: String, error_var: Option<String> },
}

impl View for ServeEvent {
    type V = ServeEventModel;

    open spec fn view(&self) -> ServeEventModel {
        match self {
            ServeEvent::Route { found, stale } => ServeEventModel::Route { found: *found, stale: *stale },
            ServeEvent::PageRendered { html } => ServeEventModel::PageRendered { html: html@ },
            ServeEvent::Succeeded => ServeEventModel::Succeeded,
            ServeEvent::Failed { message } => ServeEventModel::Failed { message: message@ },
            ServeEvent::ErrorPageFailed { message, error_var } => ServeEventModel::ErrorPageFailed {
                message: message@,
                error_var: match error_var {
                    Some(v) => Some(v@),
                    None => None,
                },
            },
        }
    }
}

/// What to do next, as a mathematical value.
pub enum ServeActionModel {
    RenderNotFoundPage,
    CompilePage,
    CompileStyles,
    RenderErrorPage { error: Seq<char> },
    Respond { status: u16, body: Seq<char> },
    ServeFile,
}

/// What to do next.
#[derive(Debug, PartialEq, Eq)]
pub enum ServeAction {
    /// Render the `_404.md` page.
    RenderNotFoundPage,
    /// Compile the requested page to its output file.
    CompilePage,
    /// Compile the stylesheet.
    CompileStyles,
    /// Set the `error` variable to `error` and render the `_500.md` page.
    RenderErrorPage { error: String },
    /// Answer with `status` and `body`.
    Respond { status: u16, body: String },
    /// Answer with the compiled output file.
    ServeFile,
}

impl View for ServeAction {
    type V = ServeActionModel;

    open spec fn view(&self) -> ServeActionModel {
        match self {
            ServeAction::RenderNotFoundPage => ServeActionModel::RenderNotFoundPage,
            ServeAction::CompilePage => ServeActionModel::CompilePage,
            ServeAction::CompileStyles => ServeActionModel::CompileStyles,
            ServeAction::RenderErrorPage { error } => ServeActionModel::RenderErrorPage { error: error@ },
            ServeAction::Respond { status, body } => ServeActionModel::Respond { status: *status, body: body@ },
            ServeAction::ServeFile => ServeActionModel::ServeFile,
        }
    }
}

/// The answer when even the error page fails to render.
pub open spec fn critical_message(message: Seq<char>, error_var: Option<Seq<char>>) -> Seq<char> {
    "Critical: Failed to render 500 page: "@ + message + "\nOriginal error was: "@ + match error_var {
        Some(v) => v,
        None => "unknown"@,
    }
}

/// The next state and action after `event` in `state`; `None` for an event that does not
/// belong to the state. A missing route renders the not-found page (answered with 404); a
/// stale page is compiled, then the stylesheet; a fresh or freshly compiled page is served
/// from its file; any failure renders the error page (answered with 500), and a failure of
/// that gives a plain message.
pub open spec fn serve_step_spec(state: ServeState, event: ServeEventModel) -> Option<(ServeState, ServeActionModel)> {
    match (state, event) {
        (ServeState::Resolving, ServeEventModel::Route { found, stale }) => Some(
            if !found {
                (ServeState::RenderingNotFound, ServeActionModel::RenderNotFoundPage)
            } else if stale {
                (ServeState::Compiling, ServeActionModel::CompilePage)
            } else {
                (ServeState::Finished, ServeActionModel::ServeFile)
            },
        ),
        (ServeState::RenderingNotFound, ServeEventModel::PageRendered { html }) => Some(
            (ServeState::Finished, ServeActionModel::Respond { status: 404, body: html }),
        ),
        (ServeState::Compiling, ServeEventModel::Succeeded) => Some((ServeState::CompilingStyles, ServeActionModel::CompileStyles)),
        (ServeState::CompilingStyles, ServeEventModel::Succeeded) => Some((ServeState::Finished, ServeActionModel::ServeFile)),
        (ServeState::RenderingNotFound, ServeEventModel::Failed { message })
        | (ServeState::Compiling, ServeEventModel::Failed { message })
        | (ServeState::CompilingStyles, ServeEventModel::Failed { message }) => Some(
            (ServeState::RenderingErrorPage, ServeActionModel::RenderErrorPage { error: message }),
        ),
        (ServeState::RenderingErrorPage, ServeEventModel::PageRendered { html }) => Some(
            (ServeState::Finished, ServeActionModel::Respond { status: 500, body: html }),
        ),
        (ServeState::RenderingErrorPage, ServeEventModel::ErrorPageFailed { message, error_var }) => Some(
            (ServeState::Finished, ServeActionModel::Respond { status: 500, body: critical_message(message, error_var) }),
        ),
        _ => None,
    }
}

/// Decides the next step of serving a request (see [`serve_step_spec`]).
pub fn serve_step(state: ServeState, event: ServeEvent) -> (r: Option<(ServeState, ServeAction)>)
    ensures
        match serve_step_spec(state, event@) {
            None => r is None,
            Some((s, a)) => r matches Some((rs, ra)) && rs == s && ra@ == a,
        },
{
    match (state, event) {
        (ServeState::Resolving, ServeEvent::Route { found, stale }) => Some(
            if !found {
                (ServeState::RenderingNotFound, ServeAction::RenderNotFoundPage)
            } else if stale {
                (ServeState::Compiling, ServeAction::CompilePage)
            } else {
                (ServeState::Finished, ServeAction::ServeFile)
            },
        ),
        (ServeState::RenderingNotFound, ServeEvent::PageRendered { html }) => Some(
            (ServeState::Finished, ServeAction::Respond { status: 404, body: html }),
        ),
        (ServeState::Compiling, ServeEvent::Succeeded) => Some((ServeState::CompilingStyles, ServeAction::CompileStyles)),
        (ServeState::CompilingStyles, ServeEvent::Succeeded) => Some((ServeState::Finished, ServeAction::ServeFile)),
        (ServeState::RenderingNotFound, ServeEvent::Failed { message })
        | (ServeState::Compiling, ServeEvent::Failed { message })
        | (ServeState::CompilingStyles, ServeEvent::Failed { message }) => Some(
            (ServeState::RenderingErrorPage, ServeAction::RenderErrorPage { error: message }),
        ),
        (ServeState::RenderingErrorPage, ServeEvent::PageRendered { html }) => Some(
            (ServeState::Finished, ServeAction::Respond { status: 500, body: html }),
        ),
        (ServeState::RenderingErrorPage, ServeEvent::ErrorPageFailed { message, error_var }) => {
            let mut body = String::from_str("Critical: Failed to render 500 page: ");
            body.append(message.as_str());
            body.append("\nOriginal error was: ");
            match error_var {
                Some(v) => body.append(v.as_str()),
                None => body.append("unknown"),
            }
            Some((ServeState::Finished, ServeAction::Respond { status: 500, body }))
        },
        _ => None,
    }
}

/// Serving always ends: every action other than answering leads to a state that is closer
/// to `Finished`, and `Finished` takes no event.
pub proof fn law_serving_ends(state: ServeState, event: ServeEventModel)
    ensures
        state == ServeState::Finished ==> serve_step_spec(state, event) is None,
        serve_step_spec(state, event) matches Some((next, action)) ==> (
            (action is Respond || action is ServeFile) <==> next == ServeState::Finished),
        serve_step_spec(state, event) matches Some((next, _)) ==> serve_rank(next) < serve_rank(state),
{
}

/// How many steps a state can still take, at most.
pub open spec fn serve_rank(s: ServeState) -> int {
    match s {
        ServeState::Resolving => 4,
        ServeState::Compiling => 3,
        ServeState::CompilingStyles => 2,
        ServeState::RenderingNotFound => 2,
        ServeState::RenderingErrorPage => 1,
        ServeState::Finished => 0,
    }
}

} // verus!
