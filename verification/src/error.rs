//! Errors of the domain, the application services and the command line,
//! with the messages they display and the `context` operation that
//! prefixes them.
use vstd::prelude::*;
use crate::num::{format_i32, i32_text};

verus! {

/// `a` followed by `b`.
pub fn concat(a: &str, b: &str) -> (r: String)
    ensures
        r@ == a@ + b@,
{
    let mut r = String::new();
    r.append(a);
    r.append(b);
    r
}

/// `ctx`, a colon and a space, then `msg`.
pub fn prefixed(ctx: &str, msg: &str) -> (r: String)
    ensures
        r@ == ctx@ + ": "@ + msg@,
{
    let mut r = String::new();
    r.append(ctx);
    r.append(": ");
    r.append(msg);
    r
}

/// Errors raised by the domain model.
#[derive(Debug)]
pub enum DomainError {
    InvalidTag(String),
    InvalidUrl(String),
    BookmarkNotFound(String),
    BookmarkOperationFailed(String),
    TagOperationFailed(String),
    Other(String),
}

/// The message a domain error displays.
pub open spec fn domain_error_text(e: DomainError) -> Seq<char> {
    match e {
        DomainError::InvalidTag(m) => "Invalid tag: "@ + m@,
        DomainError::InvalidUrl(m) => "Invalid URL: "@ + m@,
        DomainError::BookmarkNotFound(m) => "Bookmark not found: "@ + m@,
        DomainError::BookmarkOperationFailed(m) => "Bookmark operation failed: "@ + m@,
        DomainError::TagOperationFailed(m) => "Tag operation failed: "@ + m@,
        DomainError::Other(m) => m@,
    }
}

impl DomainError {
    /// The message this error displays.
    pub fn message(&self) -> (r: String)
        ensures
            r@ == domain_error_text(*self),
    {
        match self {
            DomainError::InvalidTag(m) => concat("Invalid tag: ", m.as_str()),
            DomainError::InvalidUrl(m) => concat("Invalid URL: ", m.as_str()),
            DomainError::BookmarkNotFound(m) => concat("Bookmark not found: ", m.as_str()),
            DomainError::BookmarkOperationFailed(m) => concat(
                "Bookmark operation failed: ",
                m.as_str(),
            ),
            DomainError::TagOperationFailed(m) => concat("Tag operation failed: ", m.as_str()),
            DomainError::Other(m) => m.clone(),
        }
    }

    /// This error as an `Other` error whose message is prefixed with `ctx`.
    pub fn context(self, ctx: &str) -> (r: DomainError)
        ensures
            r == DomainError::Other(r->Other_0) && r->Other_0@ == ctx@ + ": "@
                + domain_error_text(self),
    {
        let msg = self.message();
        DomainError::Other(prefixed(ctx, msg.as_str()))
    }
}

/// Errors raised by the application services.
#[derive(Debug)]
pub enum ApplicationError {
    Domain(DomainError),
    BookmarkNotFound(i32),
    BookmarkExists(i32, String),
    DuplicateName { name: String, existing_id: i32, file_path: String },
    Validation(String),
    Other(String),
}

/// The message an application error displays.
pub open spec fn application_error_text(e: ApplicationError) -> Seq<char> {
    match e {
        ApplicationError::Domain(d) => "Domain error: "@ + domain_error_text(d),
        ApplicationError::BookmarkNotFound(id) => "Bookmark not found with ID "@ + i32_text(id),
        ApplicationError::BookmarkExists(id, url) => "Bookmark already exists: Id "@ + i32_text(id)
            + ": "@ + url@,
        ApplicationError::DuplicateName { name, existing_id, file_path } => "Duplicate name '"@ + name@
            + "' found in "@ + file_path@ + " (existing bookmark ID "@ + i32_text(existing_id) + ")"@,
        ApplicationError::Validation(m) => "Validation failed: "@ + m@,
        ApplicationError::Other(m) => m@,
    }
}

/// What `ApplicationError::context` makes of `e` with the context `ctx`.
pub open spec fn application_context(e: ApplicationError, ctx: Seq<char>) -> Seq<char> {
    match e {
        ApplicationError::Other(m) => ctx + ": "@ + m@,
        ApplicationError::Validation(m) => ctx + ": "@ + m@,
        ApplicationError::Domain(d) => ctx + ": "@ + domain_error_text(d),
        _ => ctx + ": "@ + application_error_text(e),
    }
}

/// Whether `r` is what `ApplicationError::context` makes of `e` with `ctx`.
pub open spec fn app_context_holds(e: ApplicationError, ctx: Seq<char>, r: ApplicationError) -> bool {
    match e {
        ApplicationError::Validation(_) => r is Validation && r->Validation_0@
            == application_context(e, ctx),
        ApplicationError::Domain(_) => r is Domain && r->Domain_0 is Other
            && r->Domain_0->Other_0@ == application_context(e, ctx),
        _ => r is Other && r->Other_0@ == application_context(e, ctx),
    }
}

impl ApplicationError {
    /// The message this error displays.
    pub fn message(&self) -> (r: String)
        ensures
            r@ == application_error_text(*self),
    {
        match self {
            ApplicationError::Domain(d) => {
                let m = d.message();
                concat("Domain error: ", m.as_str())
            },
            ApplicationError::BookmarkNotFound(id) => {
                let t = format_i32(*id);
                concat("Bookmark not found with ID ", t.as_str())
            },
            ApplicationError::BookmarkExists(id, url) => {
                let t = format_i32(*id);
                let mut r = String::new();
                r.append("Bookmark already exists: Id ");
                r.append(t.as_str());
                r.append(": ");
                r.append(url.as_str());
                r
            },
            ApplicationError::DuplicateName { name, existing_id, file_path } => {
                let t = format_i32(*existing_id);
                let mut r = String::new();
                r.append("Duplicate name '");
                r.append(name.as_str());
                r.append("' found in ");
                r.append(file_path.as_str());
                r.append(" (existing bookmark ID ");
                r.append(t.as_str());
                r.append(")");
                r
            },
            ApplicationError::Validation(m) => concat("Validation failed: ", m.as_str()),
            ApplicationError::Other(m) => m.clone(),
        }
    }

    /// Adds `ctx` in front of the message: `Other` and `Validation` keep
    /// their variant, a domain error stays a domain error, and every other
    /// error becomes `Other` with its displayed message.
    pub fn context(self, ctx: &str) -> (r: ApplicationError)
        ensures
            app_context_holds(self, ctx@, r),
    {
        match self {
            ApplicationError::Other(m) => ApplicationError::Other(prefixed(ctx, m.as_str())),
            ApplicationError::Validation(m) => ApplicationError::Validation(
                prefixed(ctx, m.as_str()),
            ),
            ApplicationError::Domain(d) => ApplicationError::Domain(d.context(ctx)),
            e => {
                let m = e.message();
                ApplicationError::Other(prefixed(ctx, m.as_str()))
            },
        }
    }
}

/// Errors raised by the command line.
#[derive(Debug)]
pub enum CliError {
    CommandFailed(String),
    InvalidInput(String),
    InvalidIdFormat(String),
    OperationAborted,
    Application(ApplicationError),
    Other(String),
}

/// The message a command-line error displays.
pub open spec fn cli_error_text(e: CliError) -> Seq<char> {
    match e {
        CliError::CommandFailed(m) => "Command failed: "@ + m@,
        CliError::InvalidInput(m) => "Invalid input: "@ + m@,
        CliError::InvalidIdFormat(m) => "Invalid ID format: "@ + m@,
        CliError::OperationAborted => "Operation aborted by user"@,
        CliError::Application(a) => "Application error: "@ + application_error_text(a),
        CliError::Other(m) => m@,
    }
}

impl CliError {
    /// The message this error displays.
    pub fn message(&self) -> (r: String)
        ensures
            r@ == cli_error_text(*self),
    {
        match self {
            CliError::CommandFailed(m) => concat("Command failed: ", m.as_str()),
            CliError::InvalidInput(m) => concat("Invalid input: ", m.as_str()),
            CliError::InvalidIdFormat(m) => concat("Invalid ID format: ", m.as_str()),
            CliError::OperationAborted => {
                proof {
                    reveal_strlit("");
                }
                concat("Operation aborted by user", "")
            },
            CliError::Application(a) => {
                let m = a.message();
                concat("Application error: ", m.as_str())
            },
            CliError::Other(m) => m.clone(),
        }
    }

    /// Adds `ctx` in front of the message: `CommandFailed`, `InvalidInput`
    /// and `Other` keep their variant, an application error gets the
    /// context of its own, and every other error becomes `Other`.
    pub fn context(self, ctx: &str) -> (r: CliError)
        ensures
            match self {
                CliError::CommandFailed(m) => r is CommandFailed && r->CommandFailed_0@ == ctx@
                    + ": "@ + m@,
                CliError::InvalidInput(m) => r is InvalidInput && r->InvalidInput_0@ == ctx@
                    + ": "@ + m@,
                CliError::Other(m) => r is Other && r->Other_0@ == ctx@ + ": "@ + m@,
                CliError::Application(a) => r is Application && app_context_holds(
                    a,
                    ctx@,
                    r->Application_0,
                ),
                _ => r is Other && r->Other_0@ == ctx@ + ": "@ + cli_error_text(self),
            },
    {
        match self {
            CliError::CommandFailed(m) => CliError::CommandFailed(prefixed(ctx, m.as_str())),
            CliError::InvalidInput(m) => CliError::InvalidInput(prefixed(ctx, m.as_str())),
            CliError::Application(a) => CliError::Application(a.context(ctx)),
            CliError::Other(m) => CliError::Other(prefixed(ctx, m.as_str())),
            e => {
                let m = e.message();
                CliError::Other(prefixed(ctx, m.as_str()))
            },
        }
    }
}

} // verus!
