//! The actions a bookmark can have run on it (open, copy, print, run as a
//! script), with the services they are built from, and the decisions in
//! them. Carrying an action out (opening a browser, copying to the
//! clipboard, running a shell) is left to the program around the library.
use std::sync::Arc;
use vstd::prelude::*;
use crate::bookmark::{Bookmark, BookmarkView};
use crate::error::{concat, domain_error_text, ApplicationError, DomainError};
use crate::num::{format_i32, i32_text};
use crate::search::{occurs, occurs_in};
use crate::text::{chars_of, has_prefix, owned, starts_with, string_of};

verus! {

/// The action that opens a bookmark with the default application.
pub struct DefaultAction<I> {
    interpolation_service: Arc<I>,
}

impl<I> DefaultAction<I> {
    /// The action over `interpolation_service`.
    pub fn new(interpolation_service: Arc<I>) -> (r: DefaultAction<I>)
        ensures
            r.service() == *interpolation_service,
    {
        DefaultAction { interpolation_service }
    }

    /// The service that renders URLs.
    pub closed spec fn service(&self) -> I {
        *self.interpolation_service
    }

    /// What the action does.
    pub fn description(&self) -> (r: &'static str)
        ensures
            r@ == "Open with default application"@,
    {
        "Open with default application"
    }
}

/// The action that opens a URL, a file, or a legacy `shell::` command.
pub struct UriAction<I> {
    interpolation_service: Arc<I>,
}

/// The command of a legacy `shell::` URL: the URL with every `shell::`
/// removed; `None` for other URLs.
pub open spec fn legacy_shell_command(url: Seq<char>) -> Option<Seq<char>> {
    if starts_with(url, "shell::"@) {
        Some(without_marker(url))
    } else {
        None
    }
}

/// `s` with every `shell::` removed, read from the left.
pub open spec fn without_marker(s: Seq<char>) -> Seq<char>
    decreases s.len(),
{
    if s.len() == 0 {
        s
    } else if s.len() >= 7 && starts_with(s, "shell::"@) {
        without_marker(s.skip(7))
    } else {
        seq![s[0]] + without_marker(s.drop_first())
    }
}

impl<I> UriAction<I> {
    /// The action over `interpolation_service`.
    pub fn new(interpolation_service: Arc<I>) -> (r: UriAction<I>)
        ensures
            r.service() == *interpolation_service,
    {
        UriAction { interpolation_service }
    }

    /// The service that renders URLs.
    pub closed spec fn service(&self) -> I {
        *self.interpolation_service
    }

    /// What the action does.
    pub fn description(&self) -> (r: &'static str)
        ensures
            r@ == "Open in browser or application"@,
    {
        "Open in browser or application"
    }

    /// The shell command a rendered URL stands for, if it is a legacy
    /// `shell::` URL.
    pub fn shell_command(url: &str) -> (r: Option<String>)
        ensures
            match r {
                Some(c) => legacy_shell_command(url@) == Some(c@),
                None => legacy_shell_command(url@) is None,
            },
    {
        proof {
            reveal_strlit("shell::");
        }
        let cs = chars_of(url);
        let marker = chars_of("shell::");
        if !has_prefix(cs.as_slice(), marker.as_slice()) {
            return None;
        }
        let n = cs.len();
        let mut out: Vec<char> = Vec::new();
        let mut i: usize = 0;
        assert(cs@.skip(0) =~= cs@);
        while i < n
            invariant
                i <= n,
                n == cs@.len(),
                marker@ == "shell::"@,
                marker@.len() == 7,
                out@ + without_marker(cs@.skip(i as int)) == without_marker(cs@),
            decreases n - i,
        {
            let ghost rest = cs@.skip(i as int);
            let tail = crate::text::copy_range(cs.as_slice(), i, n);
            assert(tail@ =~= rest);
            if has_prefix(tail.as_slice(), marker.as_slice()) {
                assert(rest.skip(7) =~= cs@.skip(i as int + 7));
                i = i + 7;
            } else {
                out.push(cs[i]);
                proof {
                    assert(rest.drop_first() =~= cs@.skip(i as int + 1));
                    assert(rest[0] == cs@[i as int]);
                    assert(out@ + without_marker(cs@.skip(i as int + 1)) =~= out@.drop_last() + (seq![rest[0]]
                        + without_marker(rest.drop_first())));
                }
                i = i + 1;
            }
        }
        assert(cs@.skip(n as int) =~= Seq::<char>::empty());
        assert(out@ + Seq::<char>::empty() =~= out@);
        Some(string_of(out.as_slice()))
    }
}

/// The action that prints environment variables for sourcing.
pub struct EnvAction<T> {
    template_service: Arc<T>,
}

/// What the environment action prints for a bookmark whose rendered
/// content is `content`.
pub open spec fn env_listing(title: Seq<char>, id: i32, content: Seq<char>) -> Seq<char> {
    "# Environment variables from: "@ + title + "\n"@ + "# Usage: eval \"$(bkmr open "@ + i32_text(id)
        + ")\" or source <(bkmr open "@ + i32_text(id) + ")\n"@
        + "# ----- BEGIN ENVIRONMENT VARIABLES -----\n"@ + content + "\n"@
        + "# ----- END ENVIRONMENT VARIABLES -----\n"@
}

impl<T> EnvAction<T> {
    /// The action over `template_service`.
    pub fn new(template_service: Arc<T>) -> (r: EnvAction<T>)
        ensures
            r.service() == *template_service,
    {
        EnvAction { template_service }
    }

    /// The service that renders content.
    pub closed spec fn service(&self) -> T {
        *self.template_service
    }

    /// What the action does.
    pub fn description(&self) -> (r: &'static str)
        ensures
            r@ == "Print environment variables for sourcing"@,
    {
        "Print environment variables for sourcing"
    }

    /// The text printed for `bookmark` whose rendered content is
    /// `content`: a header naming the bookmark and how to source it, the
    /// content, and a footer.
    pub fn listing(bookmark: &Bookmark, content: &str) -> (r: String)
        ensures
            r@ == env_listing(
                bookmark.title@,
                match bookmark.id {
                    Some(i) => i,
                    None => 0,
                },
                content@,
            ),
    {
        let id = match bookmark.id {
            Some(i) => i,
            None => 0,
        };
        let t = format_i32(id);
        let mut r = String::new();
        r.append("# Environment variables from: ");
        r.append(bookmark.title.as_str());
        r.append("\n");
        r.append("# Usage: eval \"$(bkmr open ");
        r.append(t.as_str());
        r.append(")\" or source <(bkmr open ");
        r.append(t.as_str());
        r.append(")\n");
        r.append("# ----- BEGIN ENVIRONMENT VARIABLES -----\n");
        r.append(content);
        r.append("\n");
        r.append("# ----- END ENVIRONMENT VARIABLES -----\n");
        r
    }
}

/// The action that prints an agent memory.
pub struct MemoryAction;

impl MemoryAction {
    /// The action.
    pub fn new() -> (r: MemoryAction) {
        MemoryAction
    }

    /// What the action does.
    pub fn description(&self) -> (r: &'static str)
        ensures
            r@ == "Display memory content"@,
    {
        "Display memory content"
    }
}

/// The action that copies a snippet to the clipboard.
pub struct SnippetAction<C, T> {
    clipboard_service: Arc<C>,
    template_service: Arc<T>,
}

impl<C, T> SnippetAction<C, T> {
    /// The action over the two services.
    pub fn new(clipboard_service: Arc<C>, template_service: Arc<T>) -> (r: SnippetAction<C, T>)
        ensures
            r.clipboard() == *clipboard_service,
            r.templates() == *template_service,
    {
        SnippetAction { clipboard_service, template_service }
    }

    /// The clipboard the action copies to.
    pub closed spec fn clipboard(&self) -> C {
        *self.clipboard_service
    }

    /// The service that renders content.
    pub closed spec fn templates(&self) -> T {
        *self.template_service
    }

    /// What the action does.
    pub fn description(&self) -> (r: &'static str)
        ensures
            r@ == "Copy to clipboard"@,
    {
        "Copy to clipboard"
    }
}

/// The action that copies a text document to the clipboard.
pub struct TextAction<C, T> {
    clipboard_service: Arc<C>,
    template_service: Arc<T>,
}

impl<C, T> TextAction<C, T> {
    /// The action over the two services.
    pub fn new(clipboard_service: Arc<C>, template_service: Arc<T>) -> (r: TextAction<C, T>)
        ensures
            r.clipboard() == *clipboard_service,
            r.templates() == *template_service,
    {
        TextAction { clipboard_service, template_service }
    }

    /// The clipboard the action copies to.
    pub closed spec fn clipboard(&self) -> C {
        *self.clipboard_service
    }

    /// The service that renders content.
    pub closed spec fn templates(&self) -> T {
        *self.template_service
    }

    /// What the action does.
    pub fn description(&self) -> (r: &'static str)
        ensures
            r@ == "Copy text to clipboard"@,
    {
        "Copy text to clipboard"
    }
}

/// The line-editing mode of the interactive shell prompt.
#[derive(Debug, Clone, Copy, PartialEq, Eq, Structural)]
pub enum EditMode {
    Emacs,
    Vi,
}

/// The editing mode the user's shell setup asks for: vi when a zsh user
/// set `ZSH_VI_MODE`, when a readline configuration sets
/// `set editing-mode vi`, or when `BASH_VI_MODE` is set; emacs otherwise.
pub open spec fn edit_mode_of(
    shell: Option<Seq<char>>,
    zsh_vi_mode: bool,
    inputrc: Option<Seq<char>>,
    home_inputrc: Option<Seq<char>>,
    bash_vi_mode: bool,
) -> EditMode {
    let vi_line = "set editing-mode vi"@;
    if (shell matches Some(s) && occurs_in("zsh"@, s)) && zsh_vi_mode {
        EditMode::Vi
    } else if inputrc matches Some(c) && occurs_in(vi_line, c) {
        EditMode::Vi
    } else if home_inputrc matches Some(c) && occurs_in(vi_line, c) {
        EditMode::Vi
    } else if bash_vi_mode {
        EditMode::Vi
    } else {
        EditMode::Emacs
    }
}

fn holds(text: &Option<String>, needle: &str) -> (r: bool)
    ensures
        r == (text matches Some(t) && occurs_in(needle@, t@)),
{
    match text {
        Some(t) => {
            let h = chars_of(t.as_str());
            let n = chars_of(needle);
            occurs(n.as_slice(), h.as_slice())
        },
        None => false,
    }
}

/// The action that runs a shell script, at a prompt or directly.
pub struct ShellAction<T> {
    pub template_service: Arc<T>,
    pub interactive: bool,
    pub script_args: Vec<String>,
}

impl<T> ShellAction<T> {
    /// The action over `template_service`, at a prompt when `interactive`.
    pub fn new(template_service: Arc<T>, interactive: bool) -> (r: ShellAction<T>)
        ensures
            r.templates() == *template_service,
            r.interactive == interactive,
            r.script_args@.len() == 0,
    {
        ShellAction { template_service, interactive, script_args: Vec::new() }
    }

    /// The action that runs scripts directly, without arguments.
    pub fn new_direct(template_service: Arc<T>) -> (r: ShellAction<T>)
        ensures
            r.templates() == *template_service,
            !r.interactive,
            r.script_args@.len() == 0,
    {
        ShellAction { template_service, interactive: false, script_args: Vec::new() }
    }

    /// The action that runs scripts directly with the arguments
    /// `script_args`.
    pub fn new_direct_with_args(template_service: Arc<T>, script_args: Vec<String>) -> (r: ShellAction<T>)
        ensures
            r.templates() == *template_service,
            !r.interactive,
            r.script_args@ == script_args@,
    {
        ShellAction { template_service, interactive: false, script_args }
    }

    /// The service that renders scripts.
    pub closed spec fn templates(&self) -> T {
        *self.template_service
    }

    /// What the action does.
    pub fn description(&self) -> (r: &'static str)
        ensures
            r@ == "Execute as shell script"@,
    {
        "Execute as shell script"
    }

    /// The editing mode of the prompt, from the user's shell setup: the
    /// `SHELL` variable, whether `ZSH_VI_MODE` is set, the contents of the
    /// readline configurations named by `INPUTRC` and in the home
    /// directory, and whether `BASH_VI_MODE` is set.
    pub fn detect_edit_mode(
        shell: &Option<String>,
        zsh_vi_mode: bool,
        inputrc: &Option<String>,
        home_inputrc: &Option<String>,
        bash_vi_mode: bool,
    ) -> (r: EditMode)
        ensures
            r == edit_mode_of(
                match shell {
                    Some(s) => Some(s@),
                    None => None,
                },
                zsh_vi_mode,
                match inputrc {
                    Some(s) => Some(s@),
                    None => None,
                },
                match home_inputrc {
                    Some(s) => Some(s@),
                    None => None,
                },
                bash_vi_mode,
            ),
    {
        if holds(shell, "zsh") && zsh_vi_mode {
            return EditMode::Vi;
        }
        if holds(inputrc, "set editing-mode vi") {
            return EditMode::Vi;
        }
        if holds(home_inputrc, "set editing-mode vi") {
            return EditMode::Vi;
        }
        if bash_vi_mode {
            return EditMode::Vi;
        }
        EditMode::Emacs
    }
}

/// The service that renders bookmark URLs through an interpolation engine.
pub struct InterpolationServiceImpl<E> {
    interpolation_engine: Arc<E>,
}

impl<E> InterpolationServiceImpl<E> {
    /// The service over `interpolation_engine`.
    pub fn new(interpolation_engine: Arc<E>) -> (r: InterpolationServiceImpl<E>)
        ensures
            r.engine() == *interpolation_engine,
    {
        InterpolationServiceImpl { interpolation_engine }
    }

    /// The engine the service renders with.
    pub closed spec fn engine(&self) -> E {
        *self.interpolation_engine
    }
}

/// The service that edits bookmarks in a template with an editor.
pub struct TemplateServiceImpl<E> {
    editor: String,
    interpolation_engine: Arc<E>,
}

impl<E> TemplateServiceImpl<E> {
    /// The service that edits with `editor` and renders with
    /// `interpolation_engine`.
    pub fn with_editor(editor: String, interpolation_engine: Arc<E>) -> (r: TemplateServiceImpl<E>)
        ensures
            r.editor()@ == editor@,
            r.engine() == *interpolation_engine,
    {
        TemplateServiceImpl { editor, interpolation_engine }
    }

    /// The editor command.
    pub closed spec fn editor(&self) -> String {
        self.editor
    }

    /// The engine the service renders with.
    pub closed spec fn engine(&self) -> E {
        *self.interpolation_engine
    }
}


/// A template engine that renders the URL of a bookmark, filling in its
/// template markers.
pub trait InterpolationEngine {
    /// The URL of `bookmark` rendered, or why it could not be.
    fn render_bookmark_url(&self, bookmark: &Bookmark) -> Result<String, DomainError>;
}

/// The operation of rendering bookmark URLs.
pub trait InterpolationService {
    /// The URL of `bookmark` rendered, or why it could not be.
    fn render_bookmark_url(&self, bookmark: &Bookmark) -> Result<String, ApplicationError>;
}

/// The message of an error an engine gave while rendering.
pub open spec fn rendering_error_text(e: DomainError) -> Seq<char> {
    "Template rendering error: "@ + domain_error_text(e)
}

/// What a rendering of the engine comes to for a service: the rendered
/// text, or an error naming the engine's error.
pub fn rendering_result(r: Result<String, DomainError>) -> (out: Result<String, ApplicationError>)
    ensures
        match r {
            Ok(s) => out matches Ok(t) && t@ == s@,
            Err(e) => out matches Err(ApplicationError::Other(m)) && m@ == rendering_error_text(e),
        },
{
    match r {
        Ok(s) => Ok(s),
        Err(e) => {
            let m = e.message();
            Err(ApplicationError::Other(concat("Template rendering error: ", m.as_str())))
        },
    }
}

/// Whether `out` is what a service makes of the engine's rendering `res`:
/// the rendered text, or an error naming the engine's error.
pub open spec fn renders_as(res: Result<String, DomainError>, out: Result<String, ApplicationError>) -> bool {
    match res {
        Ok(s) => out matches Ok(t) && t@ == s@,
        Err(e) => out matches Err(ApplicationError::Other(m)) && m@ == rendering_error_text(e),
    }
}

impl<E: InterpolationEngine> InterpolationService for InterpolationServiceImpl<E> {
    /// The URL rendered by the engine; an engine error is reported as a
    /// rendering error.
    fn render_bookmark_url(&self, bookmark: &Bookmark) -> (r: Result<String, ApplicationError>)
        ensures
            exists|res: Result<String, DomainError>|
                call_ensures(E::render_bookmark_url, (&self.engine(), bookmark), res) && renders_as(
                    res,
                    r,
                ),
    {
        let engine: &E = &self.interpolation_engine;
        let render = E::render_bookmark_url;
        let res = render(engine, bookmark);
        let out = rendering_result(res);
        assert(renders_as(res, out));
        out
    }
}

impl<E: InterpolationEngine> InterpolationService for TemplateServiceImpl<E> {
    /// The URL rendered by the engine; an engine error is reported as a
    /// rendering error.
    fn render_bookmark_url(&self, bookmark: &Bookmark) -> (r: Result<String, ApplicationError>)
        ensures
            exists|res: Result<String, DomainError>|
                call_ensures(E::render_bookmark_url, (&self.engine(), bookmark), res) && renders_as(
                    res,
                    r,
                ),
    {
        let engine: &E = &self.interpolation_engine;
        let render = E::render_bookmark_url;
        let res = render(engine, bookmark);
        let out = rendering_result(res);
        assert(renders_as(res, out));
        out
    }
}

/// The service that runs the default action of bookmarks: the action a
/// resolver picks, over a store of bookmarks.
pub struct ActionServiceImpl<A, R> {
    resolver: Arc<A>,
    repository: Arc<R>,
}

impl<A, R> ActionServiceImpl<A, R> {
    /// The service over `resolver` and `repository`.
    pub fn new(resolver: Arc<A>, repository: Arc<R>) -> (r: ActionServiceImpl<A, R>)
        ensures
            r.resolver() == *resolver,
            r.repository() == *repository,
    {
        ActionServiceImpl { resolver, repository }
    }

    /// The resolver that picks actions.
    pub closed spec fn resolver(&self) -> A {
        *self.resolver
    }

    /// The store the service records accesses in.
    pub closed spec fn repository(&self) -> R {
        *self.repository
    }
}


/// The kinds of default action.
#[derive(Debug, Clone, Copy, PartialEq, Eq, Structural)]
pub enum ActionKind {
    Uri,
    Snippet,
    Text,
    Shell,
    Markdown,
    Env,
}

/// The default action of a bookmark with the tag texts `tags`: the kind
/// named by its reserved tag (`_snip_`, `_shell_`, `_env_`, `_md_`,
/// `_imported_`, looked for in that order), and opening it otherwise.
pub open spec fn action_kind_of(tags: Seq<Seq<char>>) -> ActionKind {
    if tags.contains("_snip_"@) {
        ActionKind::Snippet
    } else if tags.contains("_shell_"@) {
        ActionKind::Shell
    } else if tags.contains("_env_"@) {
        ActionKind::Env
    } else if tags.contains("_md_"@) {
        ActionKind::Markdown
    } else if tags.contains("_imported_"@) {
        ActionKind::Text
    } else {
        ActionKind::Uri
    }
}

/// What the default action of a kind does.
pub open spec fn kind_description(k: ActionKind) -> Seq<char> {
    match k {
        ActionKind::Uri => "Open in browser or application"@,
        ActionKind::Snippet => "Copy to clipboard"@,
        ActionKind::Text => "Copy text to clipboard"@,
        ActionKind::Shell => "Execute as shell script"@,
        ActionKind::Markdown => "Render markdown and open in browser"@,
        ActionKind::Env => "Print environment variables for sourcing"@,
    }
}

fn carries(bookmark: &Bookmark, t: crate::tag::SystemTag) -> (r: bool)
    requires
        t !is Uri,
    ensures
        r == bookmark@.4.contains(crate::tag::system_tag_text(t)),
{
    let tag = t.to_tag();
    bookmark.has_tag(&tag)
}

/// The kind of the default action of `bookmark`.
pub fn resolve_action(bookmark: &Bookmark) -> (r: ActionKind)
    ensures
        r == action_kind_of(bookmark@.4),
{
    if carries(bookmark, crate::tag::SystemTag::Snippet) {
        ActionKind::Snippet
    } else if carries(bookmark, crate::tag::SystemTag::Shell) {
        ActionKind::Shell
    } else if carries(bookmark, crate::tag::SystemTag::Env) {
        ActionKind::Env
    } else if carries(bookmark, crate::tag::SystemTag::Markdown) {
        ActionKind::Markdown
    } else if carries(bookmark, crate::tag::SystemTag::Text) {
        ActionKind::Text
    } else {
        ActionKind::Uri
    }
}

/// What the default action of `bookmark` does.
pub fn get_default_action_description(bookmark: &Bookmark) -> (r: &'static str)
    ensures
        r@ == kind_description(action_kind_of(bookmark@.4)),
{
    match resolve_action(bookmark) {
        ActionKind::Uri => "Open in browser or application",
        ActionKind::Snippet => "Copy to clipboard",
        ActionKind::Text => "Copy text to clipboard",
        ActionKind::Shell => "Execute as shell script",
        ActionKind::Markdown => "Render markdown and open in browser",
        ActionKind::Env => "Print environment variables for sourcing",
    }
}

/// How the default action of a bookmark is run.
#[derive(Debug)]
pub enum ActionRun {
    /// The script is run straight away, without editing, with these
    /// arguments.
    DirectShell(Vec<String>),
    /// The action of this kind is run as the resolver has it.
    Resolved(ActionKind),
}

/// How the default action of `bookmark` is run when the no-edit option is
/// `no_edit`: a shell script asked not to be edited runs straight away
/// with `script_args`; everything else runs its resolved action. (The
/// access is counted before, whatever runs.)
pub fn default_action_run(bookmark: &Bookmark, no_edit: bool, script_args: &Vec<String>) -> (r: ActionRun)
    ensures
        (no_edit && bookmark@.4.contains(crate::tag::system_tag_text(crate::tag::SystemTag::Shell))) ==> (
        r matches ActionRun::DirectShell(a) && crate::text::string_views(a@) == crate::text::string_views(
            script_args@,
        )),
        !(no_edit && bookmark@.4.contains(crate::tag::system_tag_text(crate::tag::SystemTag::Shell))) ==> r
            == ActionRun::Resolved(action_kind_of(bookmark@.4)),
{
    if no_edit && carries(bookmark, crate::tag::SystemTag::Shell) {
        ActionRun::DirectShell(crate::text::copy_strings(script_args))
    } else {
        ActionRun::Resolved(resolve_action(bookmark))
    }
}

} // verus!
