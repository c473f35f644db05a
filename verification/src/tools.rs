//! The core tools: what each is called and described as, its parameter
//! schema, and how it is run (read-only, concurrency, permission, caps).
use vstd::prelude::*;

use crate::config::CoreToolConfig;
use crate::deferred::{is_ranking, scores_of, DeferredTool};
use crate::error::ToolError;
use crate::json::{str_field, get_spec};
use crate::text::{decimal, lowercase, owned, push_decimal_wide, push_str, words};
use crate::tool::ToolResult;
use crate::deferred::DeferredRegistry;
use crate::json::{Json, JsonValue};
use crate::schema::{
    bool_schema, int_schema, lemma_puts_step, object_schema_json, puts, str_array, str_schema, Schema,
    SchemaValue,
};
use crate::terminal::SANDBOX_MAX_OUTPUT;
use crate::tool::Permission;

verus! {

/// Search file contents using regex patterns with optional glob filtering.
pub struct SearchFilesTool {
    config: CoreToolConfig,
}

/// The parameters of `search_files`, in the order they are set.
pub open spec fn search_props() -> Seq<(Seq<char>, Json)> {
    seq![
        ("pattern"@, str_schema(Some("Regex pattern to search for"@), None, None)),
        ("path"@, str_schema(Some("Directory to search in"@), Some("."@), None)),
        ("glob_pattern"@, str_schema(Some("File name glob filter (e.g. \"*.rs\")"@), None, None)),
        ("max_results"@, int_schema(Some("Maximum number of matches to return"@), Some(50), Some(1), None)),
        ("context_lines"@, int_schema(Some("Lines of context around each match"@), Some(0), Some(0), None)),
        (
            "output_mode"@,
            str_schema(
                Some("Output mode: content (default), files, or count"@),
                Some("content"@),
                Some(seq!["content"@, "files"@, "count"@]),
            ),
        ),
        ("file_type"@, str_schema(Some("Filter by file extension (e.g. \"rs\", \"py\", \"js\")"@), None, None)),
        ("multiline"@, bool_schema(Some("Enable multiline regex matching"@), Some(false))),
        ("offset"@, int_schema(Some("Number of matches to skip for pagination"@), Some(0), Some(0), None)),
    ]
}

impl SearchFilesTool {
    pub closed spec fn config(&self) -> CoreToolConfig {
        self.config
    }

    pub fn new(config: CoreToolConfig) -> (r: Self)
        ensures
            r.config() == config,
    {
        SearchFilesTool { config }
    }

    pub fn name(&self) -> (r: &'static str)
        ensures
            r@ == "search_files"@,
    {
        "search_files"
    }

    pub fn description(&self) -> (r: &'static str)
        ensures
            r@ == "Search file contents using regex patterns. Supports glob filtering and context lines."@,
    {
        "Search file contents using regex patterns. Supports glob filtering and context lines."
    }

    pub fn toolset(&self) -> (r: &'static str)
        ensures
            r@ == "core"@,
    {
        "core"
    }

    /// The JSON Schema of the parameters.
    pub fn parameters_schema(&self) -> (r: JsonValue)
        ensures
            r@ == object_schema_json(puts(search_props()), seq!["pattern"@], None),
    {
        let ghost ps = search_props();
        let b = Schema::object();
        assert(ps.take(0) =~= Seq::<(Seq<char>, Json)>::empty());
        let b = b.required_property("pattern", Schema::string().description("Regex pattern to search for"));
        proof { lemma_puts_step(ps, 0); }
        assert(b.props() == puts(ps.take(1)));
        let b = b.property("path", Schema::string().description("Directory to search in").default("."));
        proof { lemma_puts_step(ps, 1); }
        assert(b.props() == puts(ps.take(2)));
        let b = b.property("glob_pattern", Schema::string().description("File name glob filter (e.g. \"*.rs\")"));
        proof { lemma_puts_step(ps, 2); }
        assert(b.props() == puts(ps.take(3)));
        let b = b.property(
            "max_results",
            Schema::integer().description("Maximum number of matches to return").default(50).minimum(1),
        );
        proof { lemma_puts_step(ps, 3); }
        assert(b.props() == puts(ps.take(4)));
        let b = b.property(
            "context_lines",
            Schema::integer().description("Lines of context around each match").default(0).minimum(0),
        );
        proof { lemma_puts_step(ps, 4); }
        assert(b.props() == puts(ps.take(5)));
        let modes: Vec<&str> = vec!["content", "files", "count"];
        assert(modes@.map_values(|s: &str| s@) =~= seq!["content"@, "files"@, "count"@]);
        let b = b.property(
            "output_mode",
            Schema::string().description("Output mode: content (default), files, or count").default(
                "content",
            ).enum_values(modes.as_slice()),
        );
        proof { lemma_puts_step(ps, 5); }
        assert(b.props() == puts(ps.take(6)));
        let b = b.property(
            "file_type",
            Schema::string().description("Filter by file extension (e.g. \"rs\", \"py\", \"js\")"),
        );
        proof { lemma_puts_step(ps, 6); }
        assert(b.props() == puts(ps.take(7)));
        let b = b.property("multiline", Schema::boolean().description("Enable multiline regex matching").default(false));
        proof { lemma_puts_step(ps, 7); }
        assert(b.props() == puts(ps.take(8)));
        let b = b.property(
            "offset",
            Schema::integer().description("Number of matches to skip for pagination").default(0).minimum(0),
        );
        proof { lemma_puts_step(ps, 8); }
        assert(b.props() == puts(ps.take(9)));
        assert(ps.take(9) =~= ps);
        assert(b.required_names() =~= seq!["pattern"@]);
        assert(b.desc() is None);
        b.build()
    }

    pub fn is_read_only(&self) -> (r: bool)
        ensures
            r,
    {
        true
    }

    pub fn is_concurrency_safe(&self) -> (r: bool)
        ensures
            r,
    {
        true
    }

    pub fn permission(&self) -> (r: Permission)
        ensures
            r == Permission::Auto,
    {
        Permission::Auto
    }

    pub fn max_output_bytes(&self) -> (r: usize)
        ensures
            r == self.config().max_output_bytes,
    {
        self.config.max_output_bytes
    }
}

/// Read file contents with line numbers, offset, and limit support.
pub struct ReadFileTool {
    config: CoreToolConfig,
}

pub open spec fn read_file_props() -> Seq<(Seq<char>, Json)> {
    seq![
        ("path"@, str_schema(Some("File path to read"@), None, None)),
        ("offset"@, int_schema(Some("Start line number (1-based)"@), Some(1), Some(1), None)),
        ("limit"@, int_schema(Some("Maximum number of lines to read"@), None, Some(1), None)),
    ]
}

impl ReadFileTool {
    pub closed spec fn config(&self) -> CoreToolConfig {
        self.config
    }

    pub fn new(config: CoreToolConfig) -> (r: Self)
        ensures
            r.config() == config,
    {
        ReadFileTool { config }
    }

    pub fn name(&self) -> (r: &'static str)
        ensures
            r@ == "read_file"@,
    {
        "read_file"
    }

    pub fn description(&self) -> (r: &'static str)
        ensures
            r@ == "Read file contents with line numbers. Supports offset/limit, images (base64), Jupyter notebooks, and content caching."@,
    {
        "Read file contents with line numbers. Supports offset/limit, images (base64), Jupyter notebooks, and content caching."
    }

    pub fn toolset(&self) -> (r: &'static str)
        ensures
            r@ == "core"@,
    {
        "core"
    }

    /// The JSON Schema of the parameters.
    pub fn parameters_schema(&self) -> (r: JsonValue)
        ensures
            r@ == object_schema_json(puts(read_file_props()), seq!["path"@], None),
    {
        let ghost ps = read_file_props();
        let b = Schema::object();
        assert(ps.take(0) =~= Seq::<(Seq<char>, Json)>::empty());
        let b = b.required_property("path", Schema::string().description("File path to read"));
        proof { lemma_puts_step(ps, 0); }
        assert(b.props() == puts(ps.take(1)));
        let b = b.property("offset", Schema::integer().description("Start line number (1-based)").default(1).minimum(1));
        proof { lemma_puts_step(ps, 1); }
        assert(b.props() == puts(ps.take(2)));
        let b = b.property("limit", Schema::integer().description("Maximum number of lines to read").minimum(1));
        proof { lemma_puts_step(ps, 2); }
        assert(b.props() == puts(ps.take(3)));
        assert(ps.take(3) =~= ps);
        assert(b.required_names() =~= seq!["path"@]);
        b.build()
    }

    pub fn is_read_only(&self) -> (r: bool)
        ensures
            r == true,
    {
        true
    }

    /// Whether a call may run beside others (whatever its arguments).
    pub fn is_concurrency_safe(&self) -> (r: bool)
        ensures
            r == true,
    {
        true
    }

    pub fn permission(&self) -> (r: Permission)
        ensures
            r == Permission::Auto,
    {
        Permission::Auto
    }

    pub fn max_output_bytes(&self) -> (r: usize)
        ensures
            r == self.config().max_read_bytes,
    {
        self.config.max_read_bytes
    }
}

/// Create or overwrite files.
pub struct WriteFileTool {
    config: CoreToolConfig,
}

pub open spec fn write_file_props() -> Seq<(Seq<char>, Json)> {
    seq![
        ("path"@, str_schema(Some("File path to write"@), None, None)),
        ("content"@, str_schema(Some("Content to write to the file"@), None, None)),
    ]
}

impl WriteFileTool {
    pub closed spec fn config(&self) -> CoreToolConfig {
        self.config
    }

    pub fn new(config: CoreToolConfig) -> (r: Self)
        ensures
            r.config() == config,
    {
        WriteFileTool { config }
    }

    pub fn name(&self) -> (r: &'static str)
        ensures
            r@ == "write_file"@,
    {
        "write_file"
    }

    pub fn description(&self) -> (r: &'static str)
        ensures
            r@ == "Create or overwrite a file. Parent directories are created automatically."@,
    {
        "Create or overwrite a file. Parent directories are created automatically."
    }

    pub fn toolset(&self) -> (r: &'static str)
        ensures
            r@ == "core"@,
    {
        "core"
    }

    /// The JSON Schema of the parameters.
    pub fn parameters_schema(&self) -> (r: JsonValue)
        ensures
            r@ == object_schema_json(puts(write_file_props()), seq!["path"@, "content"@], None),
    {
        let ghost ps = write_file_props();
        let b = Schema::object();
        assert(ps.take(0) =~= Seq::<(Seq<char>, Json)>::empty());
        let b = b.required_property("path", Schema::string().description("File path to write"));
        proof { lemma_puts_step(ps, 0); }
        assert(b.props() == puts(ps.take(1)));
        let b = b.required_property("content", Schema::string().description("Content to write to the file"));
        proof { lemma_puts_step(ps, 1); }
        assert(b.props() == puts(ps.take(2)));
        assert(ps.take(2) =~= ps);
        assert(b.required_names() =~= seq!["path"@, "content"@]);
        b.build()
    }

    pub fn is_read_only(&self) -> (r: bool)
        ensures
            r == false,
    {
        false
    }

    /// Whether a call may run beside others (whatever its arguments).
    pub fn is_concurrency_safe(&self) -> (r: bool)
        ensures
            r == true,
    {
        true
    }

    pub fn permission(&self) -> (r: Permission)
        ensures
            r == Permission::Ask,
    {
        Permission::Ask
    }

    pub fn max_output_bytes(&self) -> (r: usize)
        ensures
            r == self.config().max_output_bytes,
    {
        self.config.max_output_bytes
    }
}

/// Edit files by replacing strings.
pub struct EditFileTool {
    config: CoreToolConfig,
}

pub open spec fn edit_file_props() -> Seq<(Seq<char>, Json)> {
    seq![
        ("path"@, str_schema(Some("File path to edit"@), None, None)),
        ("old_string"@, str_schema(Some("Text to find and replace"@), None, None)),
        ("new_string"@, str_schema(Some("Replacement text"@), None, None)),
        ("replace_all"@, bool_schema(Some("Replace all occurrences instead of requiring exactly one"@), Some(false))),
    ]
}

impl EditFileTool {
    pub closed spec fn config(&self) -> CoreToolConfig {
        self.config
    }

    pub fn new(config: CoreToolConfig) -> (r: Self)
        ensures
            r.config() == config,
    {
        EditFileTool { config }
    }

    pub fn name(&self) -> (r: &'static str)
        ensures
            r@ == "edit_file"@,
    {
        "edit_file"
    }

    pub fn description(&self) -> (r: &'static str)
        ensures
            r@ == "Edit a file by replacing occurrences of old_string with new_string. By default requires exactly one match."@,
    {
        "Edit a file by replacing occurrences of old_string with new_string. By default requires exactly one match."
    }

    pub fn toolset(&self) -> (r: &'static str)
        ensures
            r@ == "core"@,
    {
        "core"
    }

    /// The JSON Schema of the parameters.
    pub fn parameters_schema(&self) -> (r: JsonValue)
        ensures
            r@ == object_schema_json(puts(edit_file_props()), seq!["path"@, "old_string"@, "new_string"@], None),
    {
        let ghost ps = edit_file_props();
        let b = Schema::object();
        assert(ps.take(0) =~= Seq::<(Seq<char>, Json)>::empty());
        let b = b.required_property("path", Schema::string().description("File path to edit"));
        proof { lemma_puts_step(ps, 0); }
        assert(b.props() == puts(ps.take(1)));
        let b = b.required_property("old_string", Schema::string().description("Text to find and replace"));
        proof { lemma_puts_step(ps, 1); }
        assert(b.props() == puts(ps.take(2)));
        let b = b.required_property("new_string", Schema::string().description("Replacement text"));
        proof { lemma_puts_step(ps, 2); }
        assert(b.props() == puts(ps.take(3)));
        let b = b.property("replace_all", Schema::boolean().description("Replace all occurrences instead of requiring exactly one").default(false));
        proof { lemma_puts_step(ps, 3); }
        assert(b.props() == puts(ps.take(4)));
        assert(ps.take(4) =~= ps);
        assert(b.required_names() =~= seq!["path"@, "old_string"@, "new_string"@]);
        b.build()
    }

    pub fn is_read_only(&self) -> (r: bool)
        ensures
            r == false,
    {
        false
    }

    /// Whether a call may run beside others (whatever its arguments).
    pub fn is_concurrency_safe(&self) -> (r: bool)
        ensures
            r == true,
    {
        true
    }

    pub fn permission(&self) -> (r: Permission)
        ensures
            r == Permission::Ask,
    {
        Permission::Ask
    }

    pub fn max_output_bytes(&self) -> (r: usize)
        ensures
            r == self.config().max_output_bytes,
    {
        self.config.max_output_bytes
    }
}

/// Find files by glob pattern, newest first.
pub struct GlobTool {
    config: CoreToolConfig,
}

pub open spec fn glob_props() -> Seq<(Seq<char>, Json)> {
    seq![
        ("pattern"@, str_schema(Some("Glob pattern (e.g. \"**/*.rs\")"@), None, None)),
        ("path"@, str_schema(Some("Base directory to search in"@), Some("."@), None)),
        ("max_results"@, int_schema(Some("Maximum number of results to return"@), Some(100), Some(1), None)),
    ]
}

impl GlobTool {
    pub closed spec fn config(&self) -> CoreToolConfig {
        self.config
    }

    pub fn new(config: CoreToolConfig) -> (r: Self)
        ensures
            r.config() == config,
    {
        GlobTool { config }
    }

    pub fn name(&self) -> (r: &'static str)
        ensures
            r@ == "glob"@,
    {
        "glob"
    }

    pub fn description(&self) -> (r: &'static str)
        ensures
            r@ == "Find files matching a glob pattern, sorted by modification time (newest first)."@,
    {
        "Find files matching a glob pattern, sorted by modification time (newest first)."
    }

    pub fn toolset(&self) -> (r: &'static str)
        ensures
            r@ == "core"@,
    {
        "core"
    }

    /// The JSON Schema of the parameters.
    pub fn parameters_schema(&self) -> (r: JsonValue)
        ensures
            r@ == object_schema_json(puts(glob_props()), seq!["pattern"@], None),
    {
        let ghost ps = glob_props();
        let b = Schema::object();
        assert(ps.take(0) =~= Seq::<(Seq<char>, Json)>::empty());
        let b = b.required_property("pattern", Schema::string().description("Glob pattern (e.g. \"**/*.rs\")"));
        proof { lemma_puts_step(ps, 0); }
        assert(b.props() == puts(ps.take(1)));
        let b = b.property("path", Schema::string().description("Base directory to search in").default("."));
        proof { lemma_puts_step(ps, 1); }
        assert(b.props() == puts(ps.take(2)));
        let b = b.property("max_results", Schema::integer().description("Maximum number of results to return").default(100).minimum(1));
        proof { lemma_puts_step(ps, 2); }
        assert(b.props() == puts(ps.take(3)));
        assert(ps.take(3) =~= ps);
        assert(b.required_names() =~= seq!["pattern"@]);
        b.build()
    }

    pub fn is_read_only(&self) -> (r: bool)
        ensures
            r == true,
    {
        true
    }

    /// Whether a call may run beside others (whatever its arguments).
    pub fn is_concurrency_safe(&self) -> (r: bool)
        ensures
            r == true,
    {
        true
    }

    pub fn permission(&self) -> (r: Permission)
        ensures
            r == Permission::Auto,
    {
        Permission::Auto
    }

    pub fn max_output_bytes(&self) -> (r: usize)
        ensures
            r == self.config().max_output_bytes,
    {
        self.config.max_output_bytes
    }
}

/// List directory contents.
pub struct ListDirTool {
    config: CoreToolConfig,
}

pub open spec fn list_dir_props() -> Seq<(Seq<char>, Json)> {
    seq![
        ("path"@, str_schema(Some("Directory path to list"@), Some("."@), None)),
        ("depth"@, int_schema(Some("Recursion depth (1 = no recursion)"@), Some(1), Some(1), None)),
        ("show_hidden"@, bool_schema(Some("Show hidden files (starting with '.')"@), Some(false))),
    ]
}

impl ListDirTool {
    pub closed spec fn config(&self) -> CoreToolConfig {
        self.config
    }

    pub fn new(config: CoreToolConfig) -> (r: Self)
        ensures
            r.config() == config,
    {
        ListDirTool { config }
    }

    pub fn name(&self) -> (r: &'static str)
        ensures
            r@ == "list_dir"@,
    {
        "list_dir"
    }

    pub fn description(&self) -> (r: &'static str)
        ensures
            r@ == "List directory contents with file types and sizes. Supports recursion depth control."@,
    {
        "List directory contents with file types and sizes. Supports recursion depth control."
    }

    pub fn toolset(&self) -> (r: &'static str)
        ensures
            r@ == "core"@,
    {
        "core"
    }

    /// The JSON Schema of the parameters.
    pub fn parameters_schema(&self) -> (r: JsonValue)
        ensures
            r@ == object_schema_json(puts(list_dir_props()), seq![], None),
    {
        let ghost ps = list_dir_props();
        let b = Schema::object();
        assert(ps.take(0) =~= Seq::<(Seq<char>, Json)>::empty());
        let b = b.property("path", Schema::string().description("Directory path to list").default("."));
        proof { lemma_puts_step(ps, 0); }
        assert(b.props() == puts(ps.take(1)));
        let b = b.property("depth", Schema::integer().description("Recursion depth (1 = no recursion)").default(1).minimum(1));
        proof { lemma_puts_step(ps, 1); }
        assert(b.props() == puts(ps.take(2)));
        let b = b.property("show_hidden", Schema::boolean().description("Show hidden files (starting with '.')").default(false));
        proof { lemma_puts_step(ps, 2); }
        assert(b.props() == puts(ps.take(3)));
        assert(ps.take(3) =~= ps);
        assert(b.required_names() =~= seq![]);
        b.build()
    }

    pub fn is_read_only(&self) -> (r: bool)
        ensures
            r == true,
    {
        true
    }

    /// Whether a call may run beside others (whatever its arguments).
    pub fn is_concurrency_safe(&self) -> (r: bool)
        ensures
            r == true,
    {
        true
    }

    pub fn permission(&self) -> (r: Permission)
        ensures
            r == Permission::Auto,
    {
        Permission::Auto
    }

    pub fn max_output_bytes(&self) -> (r: usize)
        ensures
            r == self.config().max_output_bytes,
    {
        self.config.max_output_bytes
    }
}

/// A reasoning scratchpad tool. The thought lives in conversation context
/// but produces no output to the user.
pub struct ThinkTool;

pub open spec fn think_props() -> Seq<(Seq<char>, Json)> {
    seq![
        ("thought"@, str_schema(Some("The reasoning content"@), None, None)),
    ]
}

impl ThinkTool {
    pub fn name(&self) -> (r: &'static str)
        ensures
            r@ == "think"@,
    {
        "think"
    }

    pub fn description(&self) -> (r: &'static str)
        ensures
            r@ == "Use this tool to think through a problem step-by-step. The content is not shown to the user but helps structure reasoning."@,
    {
        "Use this tool to think through a problem step-by-step. The content is not shown to the user but helps structure reasoning."
    }

    pub fn toolset(&self) -> (r: &'static str)
        ensures
            r@ == "core"@,
    {
        "core"
    }

    /// The JSON Schema of the parameters.
    pub fn parameters_schema(&self) -> (r: JsonValue)
        ensures
            r@ == object_schema_json(puts(think_props()), seq!["thought"@], None),
    {
        let ghost ps = think_props();
        let b = Schema::object();
        assert(ps.take(0) =~= Seq::<(Seq<char>, Json)>::empty());
        let b = b.required_property("thought", Schema::string().description("The reasoning content"));
        proof { lemma_puts_step(ps, 0); }
        assert(b.props() == puts(ps.take(1)));
        assert(ps.take(1) =~= ps);
        assert(b.required_names() =~= seq!["thought"@]);
        b.build()
    }

    pub fn is_read_only(&self) -> (r: bool)
        ensures
            r == true,
    {
        true
    }

    /// Whether a call may run beside others (whatever its arguments).
    pub fn is_concurrency_safe(&self) -> (r: bool)
        ensures
            r == true,
    {
        true
    }

    pub fn permission(&self) -> (r: Permission)
        ensures
            r == Permission::Auto,
    {
        Permission::Auto
    }

    pub fn max_output_bytes(&self) -> (r: usize)
        ensures
            r == 0,
    {
        0
    }
}

/// Ask the user a question, free-text or multiple-choice.
pub struct AskUserTool;

pub open spec fn ask_user_props() -> Seq<(Seq<char>, Json)> {
    seq![
        ("question"@, str_schema(Some("The question to ask the user"@), None, None)),
        ("options"@, Json::Object(seq![("type"@, Json::Str("array"@)), ("items"@, str_schema(None, None, None))] + seq![("description"@, Json::Str("Optional list of choices for multiple-choice questions"@))])),
    ]
}

impl AskUserTool {
    pub fn name(&self) -> (r: &'static str)
        ensures
            r@ == "ask_user"@,
    {
        "ask_user"
    }

    pub fn description(&self) -> (r: &'static str)
        ensures
            r@ == "Ask the user a question and return their answer. Supports free-text and multiple-choice."@,
    {
        "Ask the user a question and return their answer. Supports free-text and multiple-choice."
    }

    pub fn toolset(&self) -> (r: &'static str)
        ensures
            r@ == "core"@,
    {
        "core"
    }

    /// The JSON Schema of the parameters.
    pub fn parameters_schema(&self) -> (r: JsonValue)
        ensures
            r@ == object_schema_json(puts(ask_user_props()), seq!["question"@], None),
    {
        let ghost ps = ask_user_props();
        let b = Schema::object();
        assert(ps.take(0) =~= Seq::<(Seq<char>, Json)>::empty());
        let b = b.required_property("question", Schema::string().description("The question to ask the user"));
        proof { lemma_puts_step(ps, 0); }
        assert(b.props() == puts(ps.take(1)));
        let b = b.property("options", Schema::array(Schema::string().into_json()).description("Optional list of choices for multiple-choice questions"));
        proof { lemma_puts_step(ps, 1); }
        assert(b.props() == puts(ps.take(2)));
        assert(ps.take(2) =~= ps);
        assert(b.required_names() =~= seq!["question"@]);
        b.build()
    }

    pub fn is_read_only(&self) -> (r: bool)
        ensures
            r == true,
    {
        true
    }

    /// Whether a call may run beside others (whatever its arguments).
    pub fn is_concurrency_safe(&self) -> (r: bool)
        ensures
            r == false,
    {
        false
    }

    pub fn permission(&self) -> (r: Permission)
        ensures
            r == Permission::Auto,
    {
        Permission::Auto
    }

    pub fn max_output_bytes(&self) -> (r: usize)
        ensures
            r == 50_000,
    {
        50_000
    }
}

/// Manage a per-project TODO list stored as JSON.
pub struct TodoWriteTool;

pub open spec fn todo_write_props() -> Seq<(Seq<char>, Json)> {
    seq![
        ("action"@, str_schema(Some("Action to perform"@), None, Some(seq!["add"@, "update"@, "remove"@, "list"@, "clear"@]))),
        ("task"@, str_schema(Some("Task text (for 'add' action)"@), None, None)),
        ("id"@, int_schema(Some("Task ID (for 'update'/'remove' action)"@), None, None, None)),
        ("status"@, str_schema(Some("New status (for 'update' action)"@), None, Some(seq!["pending"@, "in_progress"@, "done"@, "blocked"@]))),
    ]
}

impl TodoWriteTool {
    pub fn name(&self) -> (r: &'static str)
        ensures
            r@ == "todo_write"@,
    {
        "todo_write"
    }

    pub fn description(&self) -> (r: &'static str)
        ensures
            r@ == "Manage a TODO list. Actions: add, update, remove, list, clear."@,
    {
        "Manage a TODO list. Actions: add, update, remove, list, clear."
    }

    pub fn toolset(&self) -> (r: &'static str)
        ensures
            r@ == "core"@,
    {
        "core"
    }

    /// The JSON Schema of the parameters.
    pub fn parameters_schema(&self) -> (r: JsonValue)
        ensures
            r@ == object_schema_json(puts(todo_write_props()), seq!["action"@], None),
    {
        let ghost ps = todo_write_props();
        let b = Schema::object();
        assert(ps.take(0) =~= Seq::<(Seq<char>, Json)>::empty());
        let vals0: Vec<&str> = vec!["add", "update", "remove", "list", "clear"];
        assert(vals0@.map_values(|s: &str| s@) =~= seq!["add"@, "update"@, "remove"@, "list"@, "clear"@]);
        let b = b.required_property("action", Schema::string().description("Action to perform").enum_values(vals0.as_slice()));
        proof { lemma_puts_step(ps, 0); }
        assert(b.props() == puts(ps.take(1)));
        let b = b.property("task", Schema::string().description("Task text (for 'add' action)"));
        proof { lemma_puts_step(ps, 1); }
        assert(b.props() == puts(ps.take(2)));
        let b = b.property("id", Schema::integer().description("Task ID (for 'update'/'remove' action)"));
        proof { lemma_puts_step(ps, 2); }
        assert(b.props() == puts(ps.take(3)));
        let vals3: Vec<&str> = vec!["pending", "in_progress", "done", "blocked"];
        assert(vals3@.map_values(|s: &str| s@) =~= seq!["pending"@, "in_progress"@, "done"@, "blocked"@]);
        let b = b.property("status", Schema::string().description("New status (for 'update' action)").enum_values(vals3.as_slice()));
        proof { lemma_puts_step(ps, 3); }
        assert(b.props() == puts(ps.take(4)));
        assert(ps.take(4) =~= ps);
        assert(b.required_names() =~= seq!["action"@]);
        b.build()
    }

    pub fn is_read_only(&self) -> (r: bool)
        ensures
            r == false,
    {
        false
    }

    /// Whether a call may run beside others (whatever its arguments).
    pub fn is_concurrency_safe(&self) -> (r: bool)
        ensures
            r == false,
    {
        false
    }

    pub fn permission(&self) -> (r: Permission)
        ensures
            r == Permission::Ask,
    {
        Permission::Ask
    }

    pub fn max_output_bytes(&self) -> (r: usize)
        ensures
            r == 50_000,
    {
        50_000
    }
}

/// Edit a cell of a Jupyter notebook.
pub struct NotebookEditTool;

pub open spec fn notebook_edit_props() -> Seq<(Seq<char>, Json)> {
    seq![
        ("path"@, str_schema(Some("Path to the .ipynb file"@), None, None)),
        ("cell_index"@, int_schema(Some("0-based cell index to edit"@), None, Some(0), None)),
        ("new_source"@, str_schema(Some("New source content for the cell"@), None, None)),
    ]
}

impl NotebookEditTool {
    pub fn name(&self) -> (r: &'static str)
        ensures
            r@ == "notebook_edit"@,
    {
        "notebook_edit"
    }

    pub fn description(&self) -> (r: &'static str)
        ensures
            r@ == "Edit a cell in a Jupyter notebook by replacing its source content."@,
    {
        "Edit a cell in a Jupyter notebook by replacing its source content."
    }

    pub fn toolset(&self) -> (r: &'static str)
        ensures
            r@ == "core"@,
    {
        "core"
    }

    /// The JSON Schema of the parameters.
    pub fn parameters_schema(&self) -> (r: JsonValue)
        ensures
            r@ == object_schema_json(puts(notebook_edit_props()), seq!["path"@, "cell_index"@, "new_source"@], None),
    {
        let ghost ps = notebook_edit_props();
        let b = Schema::object();
        assert(ps.take(0) =~= Seq::<(Seq<char>, Json)>::empty());
        let b = b.required_property("path", Schema::string().description("Path to the .ipynb file"));
        proof { lemma_puts_step(ps, 0); }
        assert(b.props() == puts(ps.take(1)));
        let b = b.required_property("cell_index", Schema::integer().description("0-based cell index to edit").minimum(0));
        proof { lemma_puts_step(ps, 1); }
        assert(b.props() == puts(ps.take(2)));
        let b = b.required_property("new_source", Schema::string().description("New source content for the cell"));
        proof { lemma_puts_step(ps, 2); }
        assert(b.props() == puts(ps.take(3)));
        assert(ps.take(3) =~= ps);
        assert(b.required_names() =~= seq!["path"@, "cell_index"@, "new_source"@]);
        b.build()
    }

    pub fn is_read_only(&self) -> (r: bool)
        ensures
            r == false,
    {
        false
    }

    /// Whether a call may run beside others (whatever its arguments).
    pub fn is_concurrency_safe(&self) -> (r: bool)
        ensures
            r == false,
    {
        false
    }

    pub fn permission(&self) -> (r: Permission)
        ensures
            r == Permission::Ask,
    {
        Permission::Ask
    }

    pub fn max_output_bytes(&self) -> (r: usize)
        ensures
            r == 50_000,
    {
        50_000
    }
}

/// Enter plan mode, blocking write operations.
pub struct EnterPlanModeTool;

impl EnterPlanModeTool {
    pub fn name(&self) -> (r: &'static str)
        ensures
            r@ == "enter_plan_mode"@,
    {
        "enter_plan_mode"
    }

    pub fn description(&self) -> (r: &'static str)
        ensures
            r@ == "Enter plan mode. Write operations will be blocked until exit_plan_mode is called."@,
    {
        "Enter plan mode. Write operations will be blocked until exit_plan_mode is called."
    }

    pub fn toolset(&self) -> (r: &'static str)
        ensures
            r@ == "core"@,
    {
        "core"
    }

    /// The JSON Schema of the parameters: an object with no properties.
    pub fn parameters_schema(&self) -> (r: JsonValue)
        ensures
            r@ == object_schema_json(Seq::empty(), Seq::empty(), None),
    {
        let b = Schema::object();
        assert(b.props() =~= Seq::<(Seq<char>, Json)>::empty());
        assert(b.required_names() =~= Seq::<Seq<char>>::empty());
        b.build()
    }

    pub fn is_read_only(&self) -> (r: bool)
        ensures
            r == true,
    {
        true
    }

    /// Whether a call may run beside others (whatever its arguments).
    pub fn is_concurrency_safe(&self) -> (r: bool)
        ensures
            r == true,
    {
        true
    }

    pub fn permission(&self) -> (r: Permission)
        ensures
            r == Permission::Auto,
    {
        Permission::Auto
    }

    pub fn max_output_bytes(&self) -> (r: usize)
        ensures
            r == 50_000,
    {
        50_000
    }
}

/// Exit plan mode, allowing write operations again.
pub struct ExitPlanModeTool;

impl ExitPlanModeTool {
    pub fn name(&self) -> (r: &'static str)
        ensures
            r@ == "exit_plan_mode"@,
    {
        "exit_plan_mode"
    }

    pub fn description(&self) -> (r: &'static str)
        ensures
            r@ == "Exit plan mode. Write operations are now allowed."@,
    {
        "Exit plan mode. Write operations are now allowed."
    }

    pub fn toolset(&self) -> (r: &'static str)
        ensures
            r@ == "core"@,
    {
        "core"
    }

    /// The JSON Schema of the parameters: an object with no properties.
    pub fn parameters_schema(&self) -> (r: JsonValue)
        ensures
            r@ == object_schema_json(Seq::empty(), Seq::empty(), None),
    {
        let b = Schema::object();
        assert(b.props() =~= Seq::<(Seq<char>, Json)>::empty());
        assert(b.required_names() =~= Seq::<Seq<char>>::empty());
        b.build()
    }

    pub fn is_read_only(&self) -> (r: bool)
        ensures
            r == true,
    {
        true
    }

    /// Whether a call may run beside others (whatever its arguments).
    pub fn is_concurrency_safe(&self) -> (r: bool)
        ensures
            r == true,
    {
        true
    }

    pub fn permission(&self) -> (r: Permission)
        ensures
            r == Permission::Auto,
    {
        Permission::Auto
    }

    pub fn max_output_bytes(&self) -> (r: usize)
        ensures
            r == 50_000,
    {
        50_000
    }
}

/// Meta-tool that lets the model discover deferred (lazily-loaded) tools.
pub struct ToolSearchTool {
    deferred: std::sync::Arc<DeferredRegistry>,
}

pub open spec fn tool_search_props() -> Seq<(Seq<char>, Json)> {
    seq![
        ("query"@, str_schema(Some("Search query to find tools by keyword"@), None, None)),
    ]
}

impl ToolSearchTool {
    /// The registry searched.
    pub closed spec fn registry(&self) -> DeferredRegistry {
        *self.deferred
    }

    /// Create a new `ToolSearchTool` backed by the given deferred registry.
    pub fn new(deferred: std::sync::Arc<DeferredRegistry>) -> (r: Self)
        ensures
            r.registry() == *deferred,
    {
        ToolSearchTool { deferred }
    }

    pub fn name(&self) -> (r: &'static str)
        ensures
            r@ == "tool_search"@,
    {
        "tool_search"
    }

    pub fn description(&self) -> (r: &'static str)
        ensures
            r@ == "Search for available deferred tools by keyword. Returns matching tool names and descriptions."@,
    {
        "Search for available deferred tools by keyword. Returns matching tool names and descriptions."
    }

    pub fn toolset(&self) -> (r: &'static str)
        ensures
            r@ == "core"@,
    {
        "core"
    }

    /// The JSON Schema of the parameters.
    pub fn parameters_schema(&self) -> (r: JsonValue)
        ensures
            r@ == object_schema_json(puts(tool_search_props()), seq!["query"@], None),
    {
        let ghost ps = tool_search_props();
        let b = Schema::object();
        assert(ps.take(0) =~= Seq::<(Seq<char>, Json)>::empty());
        let b = b.required_property("query", Schema::string().description("Search query to find tools by keyword"));
        proof { lemma_puts_step(ps, 0); }
        assert(b.props() == puts(ps.take(1)));
        assert(ps.take(1) =~= ps);
        assert(b.required_names() =~= seq!["query"@]);
        b.build()
    }

    pub fn is_read_only(&self) -> (r: bool)
        ensures
            r == true,
    {
        true
    }

    /// Whether a call may run beside others (whatever its arguments).
    pub fn is_concurrency_safe(&self) -> (r: bool)
        ensures
            r == true,
    {
        true
    }

    pub fn permission(&self) -> (r: Permission)
        ensures
            r == Permission::Auto,
    {
        Permission::Auto
    }

    pub fn max_output_bytes(&self) -> (r: usize)
        ensures
            r == 50_000,
    {
        50_000
    }
}

pub open spec fn process_props() -> Seq<(Seq<char>, Json)> {
    seq![
        ("action"@, Json::Object(seq![("type"@, Json::Str("string"@)), ("enum"@, str_array(seq!["start"@, "list"@, "stop"@, "status"@]))])),
        ("command"@, str_schema(Some("Shell command (for 'start' action)"@), None, None)),
        ("pid"@, int_schema(Some("Task ID (for 'stop'/'status' action)"@), None, None, None)),
    ]
}

/// The JSON Schema of the parameters of `process`.
pub fn process_parameters_schema() -> (r: JsonValue)
    ensures
        r@ == object_schema_json(puts(process_props()), seq!["action"@], None),
{
    let ghost ps = process_props();
    let b = Schema::object();
    assert(ps.take(0) =~= Seq::<(Seq<char>, Json)>::empty());
    let vals0: Vec<&str> = vec!["start", "list", "stop", "status"];
    assert(vals0@.map_values(|s: &str| s@) =~= seq!["start"@, "list"@, "stop"@, "status"@]);
    let b = b.required_property("action", Schema::enum_values(vals0.as_slice()));
    proof { lemma_puts_step(ps, 0); }
    assert(b.props() == puts(ps.take(1)));
    let b = b.property("command", Schema::string().description("Shell command (for 'start' action)"));
    proof { lemma_puts_step(ps, 1); }
    assert(b.props() == puts(ps.take(2)));
    let b = b.property("pid", Schema::integer().description("Task ID (for 'stop'/'status' action)"));
    proof { lemma_puts_step(ps, 2); }
    assert(b.props() == puts(ps.take(3)));
    assert(ps.take(3) =~= ps);
    assert(b.required_names() =~= seq!["action"@]);
    b.build()
}

pub open spec fn web_fetch_props() -> Seq<(Seq<char>, Json)> {
    seq![
        ("url"@, str_schema(Some("URL to fetch"@), None, None)),
        ("max_length"@, int_schema(Some("Maximum content length in characters"@), Some(50000), Some(1), None)),
        ("selector"@, str_schema(Some("CSS selector to filter content (informational)"@), None, None)),
    ]
}

/// The JSON Schema of the parameters of `web_fetch`.
pub fn web_fetch_parameters_schema() -> (r: JsonValue)
    ensures
        r@ == object_schema_json(puts(web_fetch_props()), seq!["url"@], None),
{
    let ghost ps = web_fetch_props();
    let b = Schema::object();
    assert(ps.take(0) =~= Seq::<(Seq<char>, Json)>::empty());
    let b = b.required_property("url", Schema::string().description("URL to fetch"));
    proof { lemma_puts_step(ps, 0); }
    assert(b.props() == puts(ps.take(1)));
    let b = b.property("max_length", Schema::integer().description("Maximum content length in characters").default(50000).minimum(1));
    proof { lemma_puts_step(ps, 1); }
    assert(b.props() == puts(ps.take(2)));
    let b = b.property("selector", Schema::string().description("CSS selector to filter content (informational)"));
    proof { lemma_puts_step(ps, 2); }
    assert(b.props() == puts(ps.take(3)));
    assert(ps.take(3) =~= ps);
    assert(b.required_names() =~= seq!["url"@]);
    b.build()
}

pub open spec fn web_search_props() -> Seq<(Seq<char>, Json)> {
    seq![
        ("query"@, str_schema(Some("Search query"@), None, None)),
        ("max_results"@, int_schema(Some("Maximum number of results to return"@), Some(10), Some(1), None)),
    ]
}

/// The JSON Schema of the parameters of `web_search`.
pub fn web_search_parameters_schema() -> (r: JsonValue)
    ensures
        r@ == object_schema_json(puts(web_search_props()), seq!["query"@], None),
{
    let ghost ps = web_search_props();
    let b = Schema::object();
    assert(ps.take(0) =~= Seq::<(Seq<char>, Json)>::empty());
    let b = b.required_property("query", Schema::string().description("Search query"));
    proof { lemma_puts_step(ps, 0); }
    assert(b.props() == puts(ps.take(1)));
    let b = b.property("max_results", Schema::integer().description("Maximum number of results to return").default(10).minimum(1));
    proof { lemma_puts_step(ps, 1); }
    assert(b.props() == puts(ps.take(2)));
    assert(ps.take(2) =~= ps);
    assert(b.required_names() =~= seq!["query"@]);
    b.build()
}

/// Execute shell commands with timeout, output limits, and danger detection.
pub struct TerminalTool {
    config: CoreToolConfig,
    sandbox: bool,
}

pub open spec fn terminal_props() -> Seq<(Seq<char>, Json)> {
    seq![
        ("command"@, str_schema(Some("Shell command to execute"@), None, None)),
        ("timeout"@, int_schema(Some("Override default timeout in seconds"@), None, Some(1), None)),
    ]
}

impl TerminalTool {
    pub closed spec fn config(&self) -> CoreToolConfig {
        self.config
    }

    pub closed spec fn sandboxed(&self) -> bool {
        self.sandbox
    }

    pub fn new(config: CoreToolConfig) -> (r: Self)
        ensures
            r.config() == config,
            !r.sandboxed(),
    {
        TerminalTool { config, sandbox: false }
    }

    /// Create a terminal tool with sandbox mode enabled.
    pub fn new_sandboxed(config: CoreToolConfig) -> (r: Self)
        ensures
            r.config() == config,
            r.sandboxed(),
    {
        TerminalTool { config, sandbox: true }
    }

    /// Whether commands run in the sandbox.
    pub fn is_sandboxed(&self) -> (r: bool)
        ensures
            r == self.sandboxed(),
    {
        self.sandbox
    }

    /// The configuration the tool was made with.
    pub fn settings(&self) -> (r: &CoreToolConfig)
        ensures
            *r == self.config(),
    {
        &self.config
    }

    pub fn name(&self) -> (r: &'static str)
        ensures
            r@ == "terminal"@,
    {
        "terminal"
    }

    pub fn description(&self) -> (r: &'static str)
        ensures
            r@ == "Execute a shell command. Detects dangerous commands and applies timeouts."@,
    {
        "Execute a shell command. Detects dangerous commands and applies timeouts."
    }

    pub fn toolset(&self) -> (r: &'static str)
        ensures
            r@ == "core"@,
    {
        "core"
    }

    /// The JSON Schema of the parameters.
    pub fn parameters_schema(&self) -> (r: JsonValue)
        ensures
            r@ == object_schema_json(puts(terminal_props()), seq!["command"@], None),
    {
        let ghost ps = terminal_props();
        let b = Schema::object();
        assert(ps.take(0) =~= Seq::<(Seq<char>, Json)>::empty());
        let b = b.required_property("command", Schema::string().description("Shell command to execute"));
        proof { lemma_puts_step(ps, 0); }
        assert(b.props() == puts(ps.take(1)));
        let b = b.property("timeout", Schema::integer().description("Override default timeout in seconds").minimum(1));
        proof { lemma_puts_step(ps, 1); }
        assert(b.props() == puts(ps.take(2)));
        assert(ps.take(2) =~= ps);
        assert(b.required_names() =~= seq!["command"@]);
        b.build()
    }

    pub fn is_read_only(&self) -> (r: bool)
        ensures
            r == false,
    {
        false
    }

    /// Shell commands have arbitrary side effects: never run beside others.
    pub fn is_concurrency_safe(&self) -> (r: bool)
        ensures
            r == false,
    {
        false
    }

    pub fn permission(&self) -> (r: Permission)
        ensures
            r == Permission::Ask,
    {
        Permission::Ask
    }

    /// The output cap: smaller in sandbox mode.
    pub fn max_output_bytes(&self) -> (r: usize)
        ensures
            r == if self.sandboxed() {
                SANDBOX_MAX_OUTPUT
            } else {
                self.config().max_output_bytes
            },
    {
        crate::terminal::terminal_max_output(self.sandbox, &self.config)
    }

    pub fn timeout_secs(&self) -> (r: u64)
        ensures
            r == self.config().terminal_timeout,
    {
        self.config.terminal_timeout
    }
}


// ---------------------------------------------------------------------------
// Registration
// ---------------------------------------------------------------------------

/// The OpenAI-format definition of a tool.
pub open spec fn definition_json(name: Seq<char>, description: Seq<char>, parameters: Json) -> Json {
    Json::Object(
        seq![
            ("type"@, Json::Str("function"@)),
            (
                "function"@,
                Json::Object(
                    seq![
                        ("name"@, Json::Str(name)),
                        ("description"@, Json::Str(description)),
                        ("parameters"@, parameters),
                    ],
                ),
            ),
        ],
    )
}

/// Builds the OpenAI-format definition of a tool from its name,
/// description and parameter schema.
pub fn tool_definition(name: &str, description: &str, parameters: JsonValue) -> (r: JsonValue)
    ensures
        r@ == definition_json(name@, description@, parameters@),
{
    let ghost pv = parameters@;
    let mut f: Vec<(String, JsonValue)> = Vec::new();
    f.push((owned("name"), JsonValue::Str(owned(name))));
    f.push((owned("description"), JsonValue::Str(owned(description))));
    f.push((owned("parameters"), parameters));
    proof {
        crate::json::lemma_object_view(f);
        assert(f@.map_values(|e: (String, JsonValue)| (e.0@, e.1@)) =~= seq![
            ("name"@, Json::Str(name@)),
            ("description"@, Json::Str(description@)),
            ("parameters"@, pv),
        ]);
    }
    let fv = JsonValue::Object(f);
    let ghost fj = fv@;
    let mut m: Vec<(String, JsonValue)> = Vec::new();
    m.push((owned("type"), JsonValue::Str(owned("function"))));
    m.push((owned("function"), fv));
    proof {
        crate::json::lemma_object_view(m);
        assert(m@.map_values(|e: (String, JsonValue)| (e.0@, e.1@)) =~= seq![
            ("type"@, Json::Str("function"@)),
            ("function"@, fj),
        ]);
    }
    JsonValue::Object(m)
}

// ---------------------------------------------------------------------------
// What the tools without side effects return
// ---------------------------------------------------------------------------

/// `  n. option\n` for each string option (others are skipped but counted).
pub open spec fn option_lines(opts: Seq<JsonValue>) -> Seq<char>
    decreases opts.len(),
{
    if opts.len() == 0 {
        Seq::empty()
    } else {
        option_lines(opts.drop_last()) + match opts.last() {
            JsonValue::Str(s) => "  "@ + decimal(opts.len() as nat) + ". "@ + s@ + "\n"@,
            _ => Seq::empty(),
        }
    }
}

/// The prompt shown to the user: the question, and when `options` is an
/// array its string items numbered from 1.
pub open spec fn ask_prompt_text(args: JsonValue) -> Option<Seq<char>> {
    match str_field(args, "question"@) {
        None => None,
        Some(q) => Some(
            match get_spec(args, "options"@) {
                Some(JsonValue::Array(opts)) => q + "\n"@ + option_lines(opts@),
                _ => q,
            },
        ),
    }
}

impl AskUserTool {
    /// The prompt for the user; `question` is required.
    pub fn prompt(&self, args: &JsonValue) -> (r: Result<String, ToolError>)
        ensures
            match ask_prompt_text(*args) {
                Some(p) => r matches Ok(s) && s@ == p,
                None => r matches Err(ToolError::Execution(m)) && m@ == "missing required parameter 'question'"@,
            },
    {
        let question = match args.str_field("question") {
            Some(q) => q,
            None => {
                return Err(ToolError::Execution(owned("missing required parameter 'question'")));
            },
        };
        let mut out = owned(question);
        match args.get("options") {
            Some(JsonValue::Array(opts)) => {
                push_str(&mut out, "\n");
                let ghost head = out@;
                let mut i: usize = 0;
                while i < opts.len()
                    invariant
                        i <= opts@.len(),
                        out@ == head + option_lines(opts@.take(i as int)),
                    decreases opts@.len() - i,
                {
                    proof {
                        assert(opts@.take(i + 1).drop_last() =~= opts@.take(i as int));
                    }
                    match &opts[i] {
                        JsonValue::Str(s) => {
                            push_str(&mut out, "  ");
                            push_decimal_wide(&mut out, (i as u128) + 1);
                            push_str(&mut out, ". ");
                            push_str(&mut out, s.as_str());
                            push_str(&mut out, "\n");
                        },
                        _ => {},
                    }
                    assert(out@ =~= head + option_lines(opts@.take(i + 1)));
                    i = i + 1;
                }
                assert(opts@.take(i as int) =~= opts@);
            },
            _ => {},
        }
        Ok(out)
    }
}

impl ThinkTool {
    /// A thought produces no output.
    pub fn run(&self) -> (r: ToolResult)
        ensures
            r is Empty,
    {
        ToolResult::Empty
    }
}

impl EnterPlanModeTool {
    /// The plan-mode flag this tool sets.
    pub fn plan_mode_after(&self) -> (r: bool)
        ensures
            r,
    {
        true
    }

    /// The report once plan mode is on.
    pub fn report(&self) -> (r: ToolResult)
        ensures
            r matches ToolResult::Text(t) && t@ == "Entered plan mode. Write operations are now blocked."@,
    {
        ToolResult::Text(owned("Entered plan mode. Write operations are now blocked."))
    }
}

impl ExitPlanModeTool {
    /// The plan-mode flag this tool sets.
    pub fn plan_mode_after(&self) -> (r: bool)
        ensures
            !r,
    {
        false
    }

    /// The report once plan mode is off.
    pub fn report(&self) -> (r: ToolResult)
        ensures
            r matches ToolResult::Text(t) && t@ == "Exited plan mode. Write operations are now allowed."@,
    {
        ToolResult::Text(owned("Exited plan mode. Write operations are now allowed."))
    }
}

/// Hints joined by `, `.
pub open spec fn hints_text(h: Seq<String>) -> Seq<char>
    decreases h.len(),
{
    if h.len() == 0 {
        Seq::empty()
    } else if h.len() == 1 {
        h[0]@
    } else {
        hints_text(h.drop_last()) + ", "@ + h.last()@
    }
}

/// One found tool: its name and description, and its hints if it has any.
pub open spec fn found_entry(t: DeferredTool) -> Seq<char> {
    "- **"@ + t.name@ + "**: "@ + t.description@ + "\n"@ + if t.search_hints@.len() > 0 {
        "  hints: "@ + hints_text(t.search_hints@) + "\n"@
    } else {
        Seq::empty()
    }
}

pub open spec fn found_entries(ts: Seq<DeferredTool>) -> Seq<char>
    decreases ts.len(),
{
    if ts.len() == 0 {
        Seq::empty()
    } else {
        found_entries(ts.drop_last()) + found_entry(ts.last())
    }
}

/// The report of a tool search over the tools found.
pub open spec fn found_report(query: Seq<char>, found: Seq<DeferredTool>) -> Seq<char> {
    if found.len() == 0 {
        "No deferred tools match query '"@ + query + "'"@
    } else {
        "Found "@ + decimal(found.len()) + " matching tool(s):\n\n"@ + found_entries(found)
    }
}

fn push_found_entry(out: &mut String, t: &DeferredTool)
    ensures
        final(out)@ == old(out)@ + found_entry(*t),
{
    let ghost o = out@;
    push_str(out, "- **");
    push_str(out, t.name.as_str());
    push_str(out, "**: ");
    push_str(out, t.description.as_str());
    push_str(out, "\n");
    let ghost a = out@;
    if t.search_hints.len() > 0 {
        push_str(out, "  hints: ");
        let ghost b = out@;
        let mut i: usize = 0;
        while i < t.search_hints.len()
            invariant
                i <= t.search_hints@.len(),
                out@ == b + hints_text(t.search_hints@.take(i as int)),
            decreases t.search_hints@.len() - i,
        {
            if i > 0 {
                push_str(out, ", ");
            }
            push_str(out, t.search_hints[i].as_str());
            proof {
                assert(t.search_hints@.take(i + 1).drop_last() =~= t.search_hints@.take(i as int));
                if i == 0 {
                    assert(t.search_hints@.take(1) =~= seq![t.search_hints@[0]]);
                }
            }
            assert(out@ =~= b + hints_text(t.search_hints@.take(i + 1)));
            i = i + 1;
        }
        assert(t.search_hints@.take(i as int) =~= t.search_hints@);
        push_str(out, "\n");
    }
    assert(out@ =~= o + found_entry(*t));
}

/// Formats the tools a search found.
pub fn format_found(query: &str, found: &Vec<&DeferredTool>) -> (r: String)
    ensures
        r@ == found_report(query@, found@.map_values(|t: &DeferredTool| *t)),
{
    let ghost fs = found@.map_values(|t: &DeferredTool| *t);
    let mut out = String::new();
    if found.len() == 0 {
        push_str(&mut out, "No deferred tools match query '");
        push_str(&mut out, query);
        push_str(&mut out, "'");
        return out;
    }
    push_str(&mut out, "Found ");
    push_decimal_wide(&mut out, found.len() as u128);
    push_str(&mut out, " matching tool(s):\n\n");
    let ghost head = out@;
    let mut i: usize = 0;
    while i < found.len()
        invariant
            i <= found@.len(),
            fs == found@.map_values(|t: &DeferredTool| *t),
            out@ == head + found_entries(fs.take(i as int)),
        decreases found@.len() - i,
    {
        push_found_entry(&mut out, found[i]);
        proof {
            assert(fs.take(i + 1).drop_last() =~= fs.take(i as int));
        }
        i = i + 1;
    }
    assert(fs.take(i as int) =~= fs);
    out
}

/// `found` is what `DeferredRegistry::search` returns for the query: every
/// tool for a query without words, else the tools with a positive score,
/// best first, ties in registration order.
pub open spec fn search_found(tools: Seq<DeferredTool>, q: Seq<char>, found: Seq<DeferredTool>) -> bool {
    &&& words(lowercase(q)).len() == 0 ==> found == tools
    &&& words(lowercase(q)).len() > 0 ==> exists|order: Seq<usize>|
        #![trigger is_ranking(scores_of(tools, words(lowercase(q))), order)]
        is_ranking(scores_of(tools, words(lowercase(q))), order) && order.len() == found.len() && forall|k: int|
            0 <= k < found.len() ==> found[k] == tools[#[trigger] order[k] as int]
}

/// `text` reports what the search for `q` finds among `tools`.
pub open spec fn search_reply(tools: Seq<DeferredTool>, q: Seq<char>, text: Seq<char>) -> bool {
    exists|found: Seq<DeferredTool>| #![trigger found_report(q, found)] text == found_report(q, found) && search_found(tools, q, found)
}

impl ToolSearchTool {
    /// Searches the deferred tools for `query` (required) and reports the
    /// matches, best first.
    pub fn run(&self, args: &JsonValue) -> (r: Result<ToolResult, ToolError>)
        ensures
            str_field(*args, "query"@) is None ==> (r matches Err(ToolError::Execution(m)) && m@
                == "missing required parameter 'query'"@),
            match str_field(*args, "query"@) {
                Some(q) => r matches Ok(ToolResult::Text(t)) && search_reply(self.registry().tools(), q, t@),
                None => true,
            },
    {
        let query = match args.str_field("query") {
            Some(q) => q,
            None => {
                return Err(ToolError::Execution(owned("missing required parameter 'query'")));
            },
        };
        let matches = self.deferred.search(query);
        let ghost found = matches@.map_values(|t: &DeferredTool| *t);
        let text = format_found(query, &matches);
        proof {
            if words(lowercase(query@)).len() == 0 {
                assert(found =~= self.registry().tools());
            } else {
                let order = choose|order: Seq<usize>|
                    is_ranking(scores_of(self.registry().tools(), words(lowercase(query@))), order)
                        && order.len() == matches@.len() && forall|k: int|
                        0 <= k < matches@.len() ==> *matches@[k] == self.registry().tools()[#[trigger] order[k] as int];
                assert(is_ranking(scores_of(self.registry().tools(), words(lowercase(query@))), order));
                assert forall|k: int| 0 <= k < found.len() implies found[k] == self.registry().tools()[#[trigger] order[k] as int] by {
                    assert(found[k] == *matches@[k]);
                }
                assert(order.len() == found.len());
                assert(search_found(self.registry().tools(), query@, found));
            }
            assert(search_found(self.registry().tools(), query@, found));
            assert(text@ == found_report(query@, found));
            assert(str_field(*args, "query"@) == Some(query@));
            assert(exists|f: Seq<DeferredTool>| #![trigger found_report(query@, f)]
                text@ == found_report(query@, f) && search_found(self.registry().tools(), query@, f));
        }
        proof {
            assert(search_reply(self.registry().tools(), query@, text@));
        }
        Ok(ToolResult::Text(text))
    }
}

} // verus!
