//! The demo bookmarks a new database is filled with: web pages, shell
//! commands, URLs with template markers, snippets, an imported document,
//! shell scripts, markdown documents and environment variables.
use vstd::prelude::*;
use crate::bookmark_service::DemoEntry;
use crate::text::owned;

verus! {

/// The text of a demo entry: URL, title, description and tag texts.
pub open spec fn entry_view(e: DemoEntry) -> (Seq<char>, Seq<char>, Seq<char>, Seq<Seq<char>>) {
    (e.0@, e.1@, e.2@, crate::text::string_views(e.3@))
}

/// The demo entries, in the order they are stored.
pub open spec fn demo_data() -> Seq<(Seq<char>, Seq<char>, Seq<char>, Seq<Seq<char>>)> {
    seq![
        ("https://github.com"@, "GitHub"@, "Platform for version control and collaboration"@, seq!["git"@, "development"@, "coding"@]),
        ("https://rust-lang.org"@, "Rust Programming Language"@, "A language empowering everyone to build reliable and efficient software"@, seq!["rust"@, "programming"@, "language"@]),
        ("https://crates.io"@, "Rust Package Registry"@, "The Rust community's crate registry"@, seq!["rust"@, "packages"@, "crates"@]),
        ("shell::echo 'Hello, World!'"@, "Hello World Shell Command"@, "Simple shell command that prints 'Hello, World!'"@, seq!["shell"@, "example"@, "hello_world"@]),
        ("shell::ls -la | grep '.rs$'"@, "List Rust Files"@, "Shell command to list all Rust files in the current directory"@, seq!["shell"@, "rust"@, "files"@, "list"@]),
        ("https://example.com/report?date={{ current_date | strftime(\"%Y-%m-%d\") }}"@, "Daily Report"@, "Dynamic URL that includes today's date"@, seq!["report"@, "dynamic"@, "interpolation"@, "date"@]),
        ("https://api.example.com/data?from={{ current_date | subtract_days(7) | strftime(\"%Y-%m-%d\") }}&to={{ current_date | strftime(\"%Y-%m-%d\") }}"@, "Last 7 Days Data"@, "API URL for fetching last 7 days of data"@, seq!["api"@, "dynamic"@, "date_range"@, "interpolation"@]),
        ("https://api.service.com/v1/users?token={{ env('API_TOKEN', 'demo-token') }}"@, "API with Token"@, "Service API that uses an environment variable for authentication"@, seq!["api"@, "token"@, "environment"@, "interpolation"@]),
        ("println!(\"Hello, {}!\", \"Rust\");\n\nfn main() {\n    println!(\"This is a Rust snippet example\");\n}"@, "Rust Hello World Snippet"@, "Simple Rust code snippet demonstrating println"@, seq!["rust"@, "snippet"@, "code"@, "_snip_"@]),
        ("function greet(name) {\n    console.log(`Hello, ${name}!`);\n}\n\ngreet('JavaScript');"@, "JavaScript Greeting Function"@, "Simple JavaScript function that greets a person"@, seq!["javascript"@, "snippet"@, "function"@, "_snip_"@]),
        ("#!/bin/bash\n\necho \"Current directory:\"\npwd\n\necho \"\\nFiles:\"\nls -la"@, "Directory Info Script"@, "Shell script that shows current directory and lists files"@, seq!["bash"@, "script"@, "shell"@, "_snip_"@]),
        ("#!/bin/bash\n\n# Today's date: {{ current_date | strftime(\"%Y-%m-%d\") }}\n\necho \"Report for {{ current_date | strftime(\"%B %d, %Y\") }}\""@, "Date Script with Interpolation"@, "Shell script with embedded date interpolation"@, seq!["bash"@, "date"@, "interpolation"@, "_snip_"@]),
        ("SELECT *\nFROM users\nWHERE registration_date > '{{ current_date | subtract_days(30) | strftime(\"%Y-%m-%d\") }}'\nORDER BY username ASC;"@, "Recent Users SQL Query"@, "SQL query to find users registered in the last 30 days"@, seq!["sql"@, "query"@, "users"@, "_snip_"@]),
        ("# Meeting Notes: {{ current_date | strftime(\"%B %d, %Y\") }}\n\n## Agenda\n- Review last week's progress\n- Discuss current blockers\n- Plan for next sprint\n\n## Action Items\n- [ ] Document API changes\n- [ ] Complete code review\n- [ ] Deploy to staging"@, "Meeting Notes Template"@, "Template for taking meeting notes with dynamic date"@, seq!["markdown"@, "meeting"@, "template"@, "_imported_"@]),
        ("https://example.com/user/{{ \"whoami\" | shell }}"@, "User-specific Link"@, "URL that includes the current username via shell command"@, seq!["dynamic"@, "shell"@, "interpolation"@]),
        ("#!/bin/bash\n\necho \"Running shell script bookmark...\"\necho \"Current directory: $(pwd)\"\nls -la"@, "Directory Info Shell Script"@, "Shell script that shows current directory and lists files"@, seq!["bash"@, "script"@, "shell"@, "_shell_"@]),
        ("#!/bin/bash\n\n# Today's date: {{ current_date | strftime(\"%Y-%m-%d\") }}\n\necho \"Report for {{ current_date | strftime(\"%B %d, %Y\") }}\"\necho \"Environment variables:\"\nenv | sort"@, "Environment Report Shell Script"@, "Shell script that reports environment variables and the current date"@, seq!["bash"@, "environment"@, "report"@, "_shell_"@]),
        ("# Markdown Example\n\n## Features\n\n- **Bold text**\n- *Italic text*\n- Lists\n- Links: [Example](https://example.com)\n\n## Code Snippets\n\n```rust\nfn hello() {\n    println!(\"Hello from Markdown!\");\n}\n```\n\n> This is a blockquote.\n\n![Image placeholder](https://via.placeholder.com/150)"@, "Markdown Demo Document"@, "Example of a markdown document with various formatting features"@, seq!["markdown"@, "example"@, "documentation"@, "_md_"@]),
        ("# Daily Report: {{ current_date | strftime(\"%B %d, %Y\") }}\n\n## Overview\n\nThis is an automatically generated report for {{ current_date | strftime(\"%Y-%m-%d\") }}.\n\n## Tasks\n\n- Review yesterday's progress\n- Plan today's work\n- Schedule meetings\n\n## Notes\n\n> Add your daily notes here.\n\n## Environment\n\n```\nUser: {{ \"whoami\" | shell }}\nHostname: {{ \"hostname\" | shell }}\n```"@, "Daily Report Template"@, "Markdown template for daily reports with date interpolation"@, seq!["markdown"@, "template"@, "report"@, "_md_"@]),
        ("# Environment variables for a dev project\nexport PROJECT_ROOT=\"$HOME/projects/myapp\"\nexport DATABASE_URL=\"postgres://localhost/myapp_dev\"\nexport API_KEY=\"dev_key_{{ current_date | strftime(\"%Y%m%d\") }}\"\n\n# Add the project bin to PATH\nexport PATH=\"$PROJECT_ROOT/bin:$PATH\"\n\necho \"Development environment loaded for MyApp\""@, "Dev Environment"@, "Environment variables for the development project"@, seq!["postgres"@, "development"@, "env"@, "_env_"@]),
    ]
}

/// A demo entry with three tags.
fn entry3(url: &str, title: &str, desc: &str, a: &str, b: &str, c: &str) -> (r: DemoEntry)
    ensures
        entry_view(r) == (url@, title@, desc@, seq![a@, b@, c@]),
{
    let ts = vec![owned(a), owned(b), owned(c)];
    let r = (owned(url), owned(title), owned(desc), ts);
    assert(crate::text::string_views(r.3@) =~= seq![a@, b@, c@]);
    r
}

/// A demo entry with four tags.
fn entry4(url: &str, title: &str, desc: &str, a: &str, b: &str, c: &str, d: &str) -> (r: DemoEntry)
    ensures
        entry_view(r) == (url@, title@, desc@, seq![a@, b@, c@, d@]),
{
    let ts = vec![owned(a), owned(b), owned(c), owned(d)];
    let r = (owned(url), owned(title), owned(desc), ts);
    assert(crate::text::string_views(r.3@) =~= seq![a@, b@, c@, d@]);
    r
}

/// The demo entries, in the order they are stored.
pub fn demo_entries() -> (r: Vec<DemoEntry>)
    ensures
        r@.len() == 20,
        Seq::new(r@.len(), |i: int| entry_view(r@[i])) == demo_data(),
{
    let r = vec![
        entry3("https://github.com", "GitHub", "Platform for version control and collaboration", "git", "development", "coding"),
        entry3("https://rust-lang.org", "Rust Programming Language", "A language empowering everyone to build reliable and efficient software", "rust", "programming", "language"),
        entry3("https://crates.io", "Rust Package Registry", "The Rust community's crate registry", "rust", "packages", "crates"),
        entry3("shell::echo 'Hello, World!'", "Hello World Shell Command", "Simple shell command that prints 'Hello, World!'", "shell", "example", "hello_world"),
        entry4("shell::ls -la | grep '.rs$'", "List Rust Files", "Shell command to list all Rust files in the current directory", "shell", "rust", "files", "list"),
        entry4("https://example.com/report?date={{ current_date | strftime(\"%Y-%m-%d\") }}", "Daily Report", "Dynamic URL that includes today's date", "report", "dynamic", "interpolation", "date"),
        entry4("https://api.example.com/data?from={{ current_date | subtract_days(7) | strftime(\"%Y-%m-%d\") }}&to={{ current_date | strftime(\"%Y-%m-%d\") }}", "Last 7 Days Data", "API URL for fetching last 7 days of data", "api", "dynamic", "date_range", "interpolation"),
        entry4("https://api.service.com/v1/users?token={{ env('API_TOKEN', 'demo-token') }}", "API with Token", "Service API that uses an environment variable for authentication", "api", "token", "environment", "interpolation"),
        entry4("println!(\"Hello, {}!\", \"Rust\");\n\nfn main() {\n    println!(\"This is a Rust snippet example\");\n}", "Rust Hello World Snippet", "Simple Rust code snippet demonstrating println", "rust", "snippet", "code", "_snip_"),
        entry4("function greet(name) {\n    console.log(`Hello, ${name}!`);\n}\n\ngreet('JavaScript');", "JavaScript Greeting Function", "Simple JavaScript function that greets a person", "javascript", "snippet", "function", "_snip_"),
        entry4("#!/bin/bash\n\necho \"Current directory:\"\npwd\n\necho \"\\nFiles:\"\nls -la", "Directory Info Script", "Shell script that shows current directory and lists files", "bash", "script", "shell", "_snip_"),
        entry4("#!/bin/bash\n\n# Today's date: {{ current_date | strftime(\"%Y-%m-%d\") }}\n\necho \"Report for {{ current_date | strftime(\"%B %d, %Y\") }}\"", "Date Script with Interpolation", "Shell script with embedded date interpolation", "bash", "date", "interpolation", "_snip_"),
        entry4("SELECT *\nFROM users\nWHERE registration_date > '{{ current_date | subtract_days(30) | strftime(\"%Y-%m-%d\") }}'\nORDER BY username ASC;", "Recent Users SQL Query", "SQL query to find users registered in the last 30 days", "sql", "query", "users", "_snip_"),
        entry4("# Meeting Notes: {{ current_date | strftime(\"%B %d, %Y\") }}\n\n## Agenda\n- Review last week's progress\n- Discuss current blockers\n- Plan for next sprint\n\n## Action Items\n- [ ] Document API changes\n- [ ] Complete code review\n- [ ] Deploy to staging", "Meeting Notes Template", "Template for taking meeting notes with dynamic date", "markdown", "meeting", "template", "_imported_"),
        entry3("https://example.com/user/{{ \"whoami\" | shell }}", "User-specific Link", "URL that includes the current username via shell command", "dynamic", "shell", "interpolation"),
        entry4("#!/bin/bash\n\necho \"Running shell script bookmark...\"\necho \"Current directory: $(pwd)\"\nls -la", "Directory Info Shell Script", "Shell script that shows current directory and lists files", "bash", "script", "shell", "_shell_"),
        entry4("#!/bin/bash\n\n# Today's date: {{ current_date | strftime(\"%Y-%m-%d\") }}\n\necho \"Report for {{ current_date | strftime(\"%B %d, %Y\") }}\"\necho \"Environment variables:\"\nenv | sort", "Environment Report Shell Script", "Shell script that reports environment variables and the current date", "bash", "environment", "report", "_shell_"),
        entry4("# Markdown Example\n\n## Features\n\n- **Bold text**\n- *Italic text*\n- Lists\n- Links: [Example](https://example.com)\n\n## Code Snippets\n\n```rust\nfn hello() {\n    println!(\"Hello from Markdown!\");\n}\n```\n\n> This is a blockquote.\n\n![Image placeholder](https://via.placeholder.com/150)", "Markdown Demo Document", "Example of a markdown document with various formatting features", "markdown", "example", "documentation", "_md_"),
        entry4("# Daily Report: {{ current_date | strftime(\"%B %d, %Y\") }}\n\n## Overview\n\nThis is an automatically generated report for {{ current_date | strftime(\"%Y-%m-%d\") }}.\n\n## Tasks\n\n- Review yesterday's progress\n- Plan today's work\n- Schedule meetings\n\n## Notes\n\n> Add your daily notes here.\n\n## Environment\n\n```\nUser: {{ \"whoami\" | shell }}\nHostname: {{ \"hostname\" | shell }}\n```", "Daily Report Template", "Markdown template for daily reports with date interpolation", "markdown", "template", "report", "_md_"),
        entry4("# Environment variables for a dev project\nexport PROJECT_ROOT=\"$HOME/projects/myapp\"\nexport DATABASE_URL=\"postgres://localhost/myapp_dev\"\nexport API_KEY=\"dev_key_{{ current_date | strftime(\"%Y%m%d\") }}\"\n\n# Add the project bin to PATH\nexport PATH=\"$PROJECT_ROOT/bin:$PATH\"\n\necho \"Development environment loaded for MyApp\"", "Dev Environment", "Environment variables for the development project", "postgres", "development", "env", "_env_"),
    ];
    assert(Seq::new(r@.len(), |i: int| entry_view(r@[i])) =~= demo_data());
    r
}

} // verus!
