//! Running a command.
use vstd::prelude::*;
use vstd::string::*;
use vstd::utf8::{encode_utf8, valid_utf8};
use crate::error::{ErrorView, LexError, Result};
use crate::json::{members, signed_dec, signed_text, Json, JsonTree};
use crate::text::{
    cat2, cat4, cat5, clone_texts, dec, dec_text, sub_text, to_chars, trim_end, trimmed_end, views,
};
use crate::tools::file_read::require_str;
use crate::tools::{
    describe_as, described_as, make_schema, object_schema, str_views, ShellCommand, Tool,
    ToolContext,
};

verus! {

/// Runs a command in a shell.
#[derive(Debug)]
pub struct BashExec;

/// How long a command may take where the call does not say.
pub const DEFAULT_TIMEOUT_SECS: u64 = 120;

/// How long a command may take at most.
pub const MAX_TIMEOUT_SECS: u64 = 600;

/// How many characters of each output are kept.
pub const MAX_OUTPUT_CHARS: usize = 20_000;

/// What a shell is called with.
#[verifier::ext_equal]
pub struct ShellView {
    pub command: Seq<char>,
    pub args: Seq<Seq<char>>,
}

impl View for ShellCommand {
    type V = ShellView;

    open spec fn view(&self) -> ShellView {
        ShellView { command: self.command@, args: views(self.args@) }
    }
}

/// The shell of a platform.
pub open spec fn platform_shell(windows: bool) -> ShellView {
    if windows {
        ShellView { command: "cmd"@, args: seq!["/C"@] }
    } else {
        ShellView { command: "/bin/sh"@, args: seq!["-c"@] }
    }
}

/// `std::path::MAIN_SEPARATOR`, which tells the platform: a backslash on Windows, a slash
/// elsewhere.
#[verifier::external_body]
fn path_separator() -> (r: char) {
    std::path::MAIN_SEPARATOR
}

impl ShellCommand {
    /// The shell of a platform.
    pub fn for_platform(windows: bool) -> (r: ShellCommand)
        ensures
            r@ == platform_shell(windows),
    {
        let mut args: Vec<String> = Vec::new();
        if windows {
            args.push("/C".to_owned());
            let r = ShellCommand { command: "cmd".to_owned(), args };
            assert(r@.args =~= seq!["/C"@]);
            r
        } else {
            args.push("-c".to_owned());
            let r = ShellCommand { command: "/bin/sh".to_owned(), args };
            assert(r@.args =~= seq!["-c"@]);
            r
        }
    }

    /// The shell of the platform that this runs on.
    pub fn platform_default() -> (r: ShellCommand)
        ensures
            r@ == platform_shell(true) || r@ == platform_shell(false),
    {
        ShellCommand::for_platform(path_separator() == '\\')
    }
}

impl Clone for ShellCommand {
    fn clone(&self) -> (r: Self)
        ensures
            r@ == self@,
    {
        ShellCommand { command: self.command.clone(), args: clone_texts(&self.args) }
    }
}

/// At most the first [`MAX_OUTPUT_CHARS`] characters of an output, and a note where there are more.
pub open spec fn shortened(label: Seq<char>, s: Seq<char>) -> Seq<char> {
    if s.len() <= MAX_OUTPUT_CHARS {
        s
    } else {
        s.take(MAX_OUTPUT_CHARS as int) + "\n…["@ + label + " 超过 "@ + (dec(
            MAX_OUTPUT_CHARS as nat,
        ) + " 字符,已截断]"@)
    }
}

/// At most the first [`MAX_OUTPUT_CHARS`] characters of an output.
pub fn truncate(label: &str, s: &str) -> (r: String)
    ensures
        r@ == shortened(label@, s@),
{
    let v = to_chars(s);
    if v.len() <= MAX_OUTPUT_CHARS {
        s.to_owned()
    } else {
        let head = sub_text(&v, 0, MAX_OUTPUT_CHARS);
        assert(head@ =~= s@.take(MAX_OUTPUT_CHARS as int));
        let n = dec_text(MAX_OUTPUT_CHARS as u64);
        let tail = cat2(n.as_str(), " 字符,已截断]");
        cat5(head.as_str(), "\n…[", label, " 超过 ", tail.as_str())
    }
}

/// How long a command may take: what the call says, but not above the limit.
pub open spec fn timeout_of(input: JsonTree) -> u64 {
    match input.unsigned_of("timeout_secs"@) {
        Some(n) => if n < MAX_TIMEOUT_SECS {
            n
        } else {
            MAX_TIMEOUT_SECS
        },
        None => DEFAULT_TIMEOUT_SECS,
    }
}

/// A command that is to be run.
#[derive(Debug)]
pub struct CommandPlan {
    pub shell: ShellCommand,
    pub command: String,
    pub timeout_secs: u64,
}

/// What a command that ended is told as: how it ended, and both its outputs.
pub open spec fn reported(code: i64, stdout: Seq<char>, stderr: Seq<char>) -> Seq<char> {
    "exit code: "@ + signed_dec(code) + "\n--- stdout ---\n"@ + shortened(
        "stdout"@,
        trim_end(stdout),
    ) + ("\n--- stderr ---\n"@ + shortened("stderr"@, trim_end(stderr)))
}

/// What `String::from_utf8_lossy` makes of bytes.
pub uninterp spec fn lossy_text(b: Seq<u8>) -> Seq<char>;

/// `String::from_utf8_lossy`: the text that valid UTF-8 encodes; of other bytes a text that depends
/// on them alone, with replacement characters where they are not UTF-8.
#[verifier::external_body]
fn from_utf8_lossy(b: &[u8]) -> (r: String)
    ensures
        r@ == lossy_text(b@),
        valid_utf8(b@) ==> encode_utf8(r@) == b@,
{
    String::from_utf8_lossy(b).into_owned()
}

impl BashExec {
    /// What a call comes to: the command, the shell it runs in and the time it has.
    pub fn plan(&self, input: &Json, ctx: &ToolContext) -> (r: Result<CommandPlan>)
        ensures
            match r {
                Ok(p) => {
                    &&& input.tree().text_of("command"@) == Some(p.command@)
                    &&& p.timeout_secs == timeout_of(input.tree())
                    &&& match ctx.shell {
                        Some(s) => p.shell@ == s@,
                        None => p.shell@ == platform_shell(true) || p.shell@ == platform_shell(false),
                    }
                },
                Err(e) => {
                    &&& input.tree().text_of("command"@) is None
                    &&& e@ == ErrorView::Tool("参数 "@ + "command"@ + " 必须是字符串"@)
                },
            },
    {
        let command = match require_str(input, "command") {
            Ok(s) => s,
            Err(e) => {
                return Err(e);
            },
        };
        let timeout_secs = match input.u64_of("timeout_secs") {
            Some(n) => if n < MAX_TIMEOUT_SECS {
                n
            } else {
                MAX_TIMEOUT_SECS
            },
            None => DEFAULT_TIMEOUT_SECS,
        };
        let shell = match &ctx.shell {
            Some(s) => s.clone(),
            None => ShellCommand::platform_default(),
        };
        Ok(CommandPlan { shell, command, timeout_secs })
    }

    /// Tells a command that ended. A command that was killed has no code and counts as -1.
    pub fn report(&self, code: Option<i32>, stdout: &str, stderr: &str) -> (r: String)
        ensures
            r@ == reported(
                match code {
                    Some(c) => c as i64,
                    None => -1i64,
                },
                stdout@,
                stderr@,
            ),
    {
        let c: i64 = match code {
            Some(c) => c as i64,
            None => -1,
        };
        let out = truncate("stdout", trimmed_end(stdout).as_str());
        let err = truncate("stderr", trimmed_end(stderr).as_str());
        let tail = cat2("\n--- stderr ---\n", err.as_str());
        cat5(
            "exit code: ",
            signed_text(c).as_str(),
            "\n--- stdout ---\n",
            out.as_str(),
            tail.as_str(),
        )
    }

    /// Tells a command that ended, by the bytes of its outputs.
    pub fn report_output(&self, code: Option<i32>, stdout: &[u8], stderr: &[u8]) -> (r: String)
        ensures
            r@ == reported(
                match code {
                    Some(c) => c as i64,
                    None => -1i64,
                },
                lossy_text(stdout@),
                lossy_text(stderr@),
            ),
    {
        let out = from_utf8_lossy(stdout);
        let err = from_utf8_lossy(stderr);
        self.report(code, out.as_str(), err.as_str())
    }

    /// Tells a command that took too long.
    pub fn timed_out(&self, plan: &CommandPlan) -> (r: LexError)
        ensures
            r@ == ErrorView::Tool(
                "命令超时(>"@ + dec(plan.timeout_secs as nat) + "s): "@ + plan.command@,
            ),
    {
        let n = dec_text(plan.timeout_secs);
        LexError::Tool(cat4("命令超时(>", n.as_str(), "s): ", plan.command.as_str()))
    }

    /// Tells a shell that could not be started.
    pub fn not_started(&self, plan: &CommandPlan, why: &str) -> (r: LexError)
        ensures
            r@ == ErrorView::Tool("无法启动 shell "@ + plan.shell.command@ + ": "@ + why@),
    {
        LexError::Tool(cat4("无法启动 shell ", plan.shell.command.as_str(), ": ", why))
    }
}

/// What the input of the tool looks like.
pub open spec fn bash_schema() -> JsonTree {
    object_schema(
        seq![
            ("command"@, described_as("string"@, "要执行的命令"@)),
            ("timeout_secs"@, described_as("integer"@, "超时秒数,默认 120,上限 600"@)),
        ],
        seq!["command"@],
    )
}

/// What the model is told of the tool.
pub const DESCRIPTION: &'static str =
    "在项目目录用 shell 执行命令并返回 stdout/stderr 与退出码";

impl Tool for BashExec {
    fn name(&self) -> (r: &str)
        ensures
            r@ == "bash_exec"@,
    {
        "bash_exec"
    }

    fn description(&self) -> (r: String)
        ensures
            r@ == DESCRIPTION@,
    {
        DESCRIPTION.to_owned()
    }

    fn schema(&self) -> (r: Json)
        ensures
            r.tree() == bash_schema(),
    {
        let mut p: Vec<(String, Json)> = Vec::new();
        p.push(("command".to_owned(), describe_as("string", "要执行的命令")));
        p.push(
            ("timeout_secs".to_owned(), describe_as("integer", "超时秒数,默认 120,上限 600")),
        );
        let mut q: Vec<&str> = Vec::new();
        q.push("command");
        assert(members(p@) =~= seq![
            ("command"@, described_as("string"@, "要执行的命令"@)),
            ("timeout_secs"@, described_as("integer"@, "超时秒数,默认 120,上限 600"@)),
        ]);
        assert(str_views(q@) =~= seq!["command"@]);
        make_schema(p, q)
    }

    fn read_only(&self) -> (r: bool)
        ensures
            !r,
    {
        false
    }
}

/// What is told of a command that ended: its code, and both outputs without white space at their
/// ends, each whole up to 20000 characters; of a longer one the first 20000 and a note.
pub proof fn law_output_is_told(code: i64, stdout: Seq<char>, stderr: Seq<char>)
    ensures
        ({
            let cut = |label: Seq<char>, s: Seq<char>|
                if s.len() <= 20000 {
                    s
                } else {
                    s.take(20000) + "\n…["@ + label + " 超过 "@ + (dec(20000) + " 字符,已截断]"@)
                };
            reported(code, stdout, stderr) == "exit code: "@ + signed_dec(code)
                + "\n--- stdout ---\n"@ + cut("stdout"@, trim_end(stdout)) + (
            "\n--- stderr ---\n"@ + cut("stderr"@, trim_end(stderr)))
        }),
{
}

/// A command has the time that the call asks for, but no more than ten minutes; without a number it
/// has two minutes.
pub proof fn law_time_is_limited(input: JsonTree)
    ensures
        timeout_of(input) <= 600,
        input.get("timeout_secs"@) is None ==> timeout_of(input) == 120,
        forall|n: u64|
            input.get("timeout_secs"@) == Some(JsonTree::Unsigned(n)) ==> timeout_of(input) == (if n
                <= 600 {
                n
            } else {
                600
            }),
{
}

} // verus!
