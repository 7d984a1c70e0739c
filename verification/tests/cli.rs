use pplx::cli::{mode_and_model, query_text, Command};

fn query() -> String {
    String::from("why is the sky blue")
}

#[test]
fn search_uses_sonar() {
    let cmd = Command::Search { query: query() };
    assert_eq!(mode_and_model(&cmd), Some(("search", "sonar", 6_000)));
}

#[test]
fn ask_uses_sonar_pro() {
    let cmd = Command::Ask { query: query() };
    assert_eq!(mode_and_model(&cmd), Some(("ask", "sonar-pro", 10_000)));
}

#[test]
fn research_uses_deep_research() {
    let cmd = Command::Research { query: query() };
    assert_eq!(
        mode_and_model(&cmd),
        Some(("research", "sonar-deep-research", 400_000))
    );
}

#[test]
fn reason_uses_reasoning_pro() {
    let cmd = Command::Reason { query: query() };
    assert_eq!(
        mode_and_model(&cmd),
        Some(("reason", "sonar-reasoning-pro", 10_000))
    );
}

#[test]
fn log_command_has_no_mode() {
    let cmd = Command::Log { all: true, stats: false };
    assert_eq!(mode_and_model(&cmd), None);
    assert_eq!(query_text(&cmd), None);
}

#[test]
fn query_text_of_each_query_command() {
    assert_eq!(query_text(&Command::Search { query: String::from("a") }), Some("a"));
    assert_eq!(query_text(&Command::Ask { query: String::from("b") }), Some("b"));
    assert_eq!(query_text(&Command::Research { query: String::from("c") }), Some("c"));
    assert_eq!(query_text(&Command::Reason { query: String::from("") }), Some(""));
}
