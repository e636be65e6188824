use render_md::serve::{serve_step, ServeAction, ServeEvent, ServeState};

#[test]
fn missing_route_renders_not_found_page() {
    let (s, a) = serve_step(ServeState::Resolving, ServeEvent::Route { found: false, stale: false }).unwrap();
    assert_eq!(s, ServeState::RenderingNotFound);
    assert_eq!(a, ServeAction::RenderNotFoundPage);
    let (s, a) = serve_step(s, ServeEvent::PageRendered { html: "<p>nope</p>".to_string() }).unwrap();
    assert_eq!(s, ServeState::Finished);
    assert_eq!(a, ServeAction::Respond { status: 404, body: "<p>nope</p>".to_string() });
}

#[test]
fn fresh_page_is_served_from_its_file() {
    let (s, a) = serve_step(ServeState::Resolving, ServeEvent::Route { found: true, stale: false }).unwrap();
    assert_eq!(s, ServeState::Finished);
    assert_eq!(a, ServeAction::ServeFile);
}

#[test]
fn stale_page_compiles_then_styles_then_serves() {
    let (s, a) = serve_step(ServeState::Resolving, ServeEvent::Route { found: true, stale: true }).unwrap();
    assert_eq!((s, a), (ServeState::Compiling, ServeAction::CompilePage));
    let (s, a) = serve_step(s, ServeEvent::Succeeded).unwrap();
    assert_eq!((s, a), (ServeState::CompilingStyles, ServeAction::CompileStyles));
    let (s, a) = serve_step(s, ServeEvent::Succeeded).unwrap();
    assert_eq!((s, a), (ServeState::Finished, ServeAction::ServeFile));
    assert!(serve_step(s, ServeEvent::Succeeded).is_none());
}

#[test]
fn failures_render_the_error_page() {
    let (s, a) = serve_step(ServeState::Compiling, ServeEvent::Failed { message: "boom".to_string() }).unwrap();
    assert_eq!(s, ServeState::RenderingErrorPage);
    assert_eq!(a, ServeAction::RenderErrorPage { error: "boom".to_string() });
    let (s, a) = serve_step(s, ServeEvent::PageRendered { html: "<p>500</p>".to_string() }).unwrap();
    assert_eq!((s, a), (ServeState::Finished, ServeAction::Respond { status: 500, body: "<p>500</p>".to_string() }));
}

#[test]
fn failing_error_page_gives_a_plain_message() {
    let ev = ServeEvent::ErrorPageFailed { message: "no template".to_string(), error_var: Some("boom".to_string()) };
    let (_, a) = serve_step(ServeState::RenderingErrorPage, ev).unwrap();
    assert_eq!(
        a,
        ServeAction::Respond { status: 500, body: "Critical: Failed to render 500 page: no template\nOriginal error was: boom".to_string() }
    );
    let ev = ServeEvent::ErrorPageFailed { message: "x".to_string(), error_var: None };
    let (_, a) = serve_step(ServeState::RenderingErrorPage, ev).unwrap();
    assert_eq!(a, ServeAction::Respond { status: 500, body: "Critical: Failed to render 500 page: x\nOriginal error was: unknown".to_string() });
}

#[test]
fn events_out_of_place_are_refused() {
    assert!(serve_step(ServeState::Resolving, ServeEvent::Succeeded).is_none());
    assert!(serve_step(ServeState::RenderingErrorPage, ServeEvent::Failed { message: "x".to_string() }).is_none());
}
