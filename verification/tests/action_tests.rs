use bkmr::actions::{
    ActionServiceImpl, DefaultAction, EditMode, EnvAction, InterpolationServiceImpl, MemoryAction,
    ShellAction, SnippetAction, TemplateServiceImpl, TextAction, UriAction,
};
use bkmr::actions::{get_default_action_description, resolve_action, ActionKind};
use bkmr::actions::{InterpolationEngine, InterpolationService};
use bkmr::bookmark::Bookmark;
use bkmr::error::{ApplicationError, DomainError};
use bkmr::tag::Tag;
use std::sync::Arc;

/// The interpolation engine of these tests: the library takes any engine.
/// This one gives URLs back unchanged and refuses those with `{{ fail }}`.
struct StandInEngine;

impl InterpolationEngine for StandInEngine {
    fn render_bookmark_url(&self, bookmark: &Bookmark) -> Result<String, DomainError> {
        if bookmark.url.contains("{{ fail }}") {
            Err(DomainError::Other("no such variable".to_string()))
        } else {
            Ok(bookmark.url.clone())
        }
    }
}

fn template_service() -> Arc<TemplateServiceImpl<StandInEngine>> {
    Arc::new(TemplateServiceImpl::with_editor("vi".to_string(), Arc::new(StandInEngine)))
}

#[test]
fn given_interactive_mode_when_create_shell_action_then_uses_defaults() {
    let template_service = template_service();

    let interactive_action = ShellAction::new(template_service.clone(), true);
    let direct_action = ShellAction::new_direct(template_service);

    assert!(interactive_action.interactive, "new() with true should set interactive mode");
    assert!(!direct_action.interactive, "new_direct() should set non-interactive mode");
}

#[test]
fn given_template_service_and_args_when_new_direct_then_creates_action_with_args() {
    let template_service = template_service();
    let args = vec!["--option1".to_string(), "value1".to_string(), "arg2".to_string()];

    let action = ShellAction::new_direct_with_args(template_service, args.clone());

    assert!(!action.interactive, "Should be non-interactive");
    assert_eq!(action.script_args, args, "Should store script arguments");
}

#[test]
fn legacy_shell_urls_become_commands() {
    assert_eq!(UriAction::<StandInEngine>::shell_command("shell::ls -la"), Some("ls -la".to_string()));
    assert_eq!(UriAction::<StandInEngine>::shell_command("shell::echo shell::x"), Some("echo x".to_string()));
    assert_eq!(UriAction::<StandInEngine>::shell_command("https://x.org/shell::"), None);
}

#[test]
fn env_listing_wraps_the_content() {
    let mut b = Bookmark::new("export A=1", "Dev", "", Vec::new()).unwrap();
    b.id = Some(4);
    let text = EnvAction::<StandInEngine>::listing(&b, "export A=1");
    assert_eq!(
        text,
        "# Environment variables from: Dev\n# Usage: eval \"$(bkmr open 4)\" or source <(bkmr open 4)\n# ----- BEGIN ENVIRONMENT VARIABLES -----\nexport A=1\n# ----- END ENVIRONMENT VARIABLES -----\n"
    );
}

#[test]
fn edit_mode_follows_the_shell_setup() {
    let zsh = Some("/bin/zsh".to_string());
    let none: Option<String> = None;
    assert_eq!(ShellAction::<StandInEngine>::detect_edit_mode(&zsh, true, &none, &none, false), EditMode::Vi);
    assert_eq!(ShellAction::<StandInEngine>::detect_edit_mode(&zsh, false, &none, &none, false), EditMode::Emacs);
    let rc = Some("# comment\nset editing-mode vi\n".to_string());
    assert_eq!(ShellAction::<StandInEngine>::detect_edit_mode(&none, false, &none, &rc, false), EditMode::Vi);
    assert_eq!(ShellAction::<StandInEngine>::detect_edit_mode(&none, false, &none, &none, true), EditMode::Vi);
}

#[test]
fn action_descriptions() {
    let engine = Arc::new(StandInEngine);
    let interp = Arc::new(InterpolationServiceImpl::new(engine));
    assert_eq!(DefaultAction::new(interp.clone()).description(), "Open with default application");
    assert_eq!(UriAction::new(interp).description(), "Open in browser or application");
    assert_eq!(EnvAction::new(template_service()).description(), "Print environment variables for sourcing");
    assert_eq!(MemoryAction::new().description(), "Display memory content");
    assert_eq!(SnippetAction::new(Arc::new(()), template_service()).description(), "Copy to clipboard");
    assert_eq!(TextAction::new(Arc::new(()), template_service()).description(), "Copy text to clipboard");
    assert_eq!(ShellAction::new_direct(template_service()).description(), "Execute as shell script");
    let _service = ActionServiceImpl::new(Arc::new(()), Arc::new(()));
}

#[test]
fn content_types_get_their_default_action() {
    let with = |tags: &str| Bookmark::new("x", "t", "", Tag::parse_tags(tags).unwrap()).unwrap();
    assert_eq!(resolve_action(&with("a,b")), ActionKind::Uri);
    assert_eq!(resolve_action(&with("_snip_")), ActionKind::Snippet);
    assert_eq!(resolve_action(&with("x,_shell_")), ActionKind::Shell);
    assert_eq!(resolve_action(&with("_env_")), ActionKind::Env);
    assert_eq!(resolve_action(&with("_md_")), ActionKind::Markdown);
    assert_eq!(resolve_action(&with("_imported_")), ActionKind::Text);
    assert_eq!(get_default_action_description(&with("_md_")), "Render markdown and open in browser");
    assert_eq!(get_default_action_description(&with("")), "Open in browser or application");
}

#[test]
fn rendering_goes_through_the_engine() {
    let service = InterpolationServiceImpl::new(Arc::new(StandInEngine));
    let plain = Bookmark::new("https://example.com/a", "t", "", Vec::new()).unwrap();
    assert_eq!(service.render_bookmark_url(&plain).unwrap(), "https://example.com/a");
    let failing = Bookmark::new("https://example.com/{{ fail }}", "t", "", Vec::new()).unwrap();
    match service.render_bookmark_url(&failing) {
        Err(ApplicationError::Other(m)) => assert_eq!(m, "Template rendering error: no such variable"),
        other => panic!("expected a rendering error, got {:?}", other),
    }
    let templates = TemplateServiceImpl::with_editor("vi".to_string(), Arc::new(StandInEngine));
    assert!(templates.render_bookmark_url(&failing).is_err());
    assert_eq!(templates.render_bookmark_url(&plain).unwrap(), "https://example.com/a");
}

#[test]
fn no_edit_runs_shell_scripts_straight_away() {
    let shell = Bookmark::new("echo hi", "s", "", Tag::parse_tags("_shell_").unwrap()).unwrap();
    let args = vec!["--verbose".to_string(), "x".to_string()];
    match bkmr::actions::default_action_run(&shell, true, &args) {
        bkmr::actions::ActionRun::DirectShell(a) => assert_eq!(a, args),
        other => panic!("expected a direct run, got {:?}", other),
    }
    match bkmr::actions::default_action_run(&shell, false, &args) {
        bkmr::actions::ActionRun::Resolved(k) => assert_eq!(k, ActionKind::Shell),
        other => panic!("expected the resolved action, got {:?}", other),
    }
    let page = Bookmark::new("https://a.example", "p", "", Vec::new()).unwrap();
    match bkmr::actions::default_action_run(&page, true, &args) {
        bkmr::actions::ActionRun::Resolved(k) => assert_eq!(k, ActionKind::Uri),
        other => panic!("expected the resolved action, got {:?}", other),
    }
}

/// An engine that marks what it rendered, and fails on `{{ fail }}`.
struct MarkingEngine;

impl InterpolationEngine for MarkingEngine {
    fn render_bookmark_url(&self, bookmark: &Bookmark) -> Result<String, DomainError> {
        if bookmark.url.contains("{{ fail }}") {
            Err(DomainError::Other("failed".to_string()))
        } else {
            Ok(format!("rendered:{}", bookmark.url))
        }
    }
}

#[test]
fn interpolation_touches_only_urls_with_markers() {
    let service = InterpolationServiceImpl::new(Arc::new(MarkingEngine));
    let make = |url: &str| Bookmark::new(url, "t", "d", Vec::new()).unwrap();
    let out = bkmr::cli::apply_interpolation(
        &service,
        vec![make("https://plain"), make("https://a/{{ x }}"), make("{% if y %}z{% endif %}"), make("https://b/{{ fail }}")],
    );
    let urls: Vec<&str> = out.iter().map(|b| b.url.as_str()).collect();
    assert_eq!(
        urls,
        vec!["https://plain", "rendered:https://a/{{ x }}", "rendered:{% if y %}z{% endif %}", "https://b/{{ fail }}"]
    );
    assert!(out.iter().all(|b| b.title == "t" && b.description == "d"));
}
