//! Reading a file.
use vstd::prelude::*;
use vstd::string::*;
use crate::error::{ErrorView, LexError, Result};
use crate::json::{members, Json, JsonTree};
use crate::text::{cat3, cat4};
use crate::tools::{
    describe_as, described_as, make_schema, object_schema, required_text, str_views, Tool,
    ToolContext,
};

verus! {

/// Reads a text file.
#[derive(Debug)]
pub struct FileRead;

/// The text under `key`, which the input must have.
pub fn require_str(input: &Json, key: &str) -> (r: Result<String>)
    ensures
        match r {
            Ok(s) => required_text(input.tree(), key@) == Ok::<Seq<char>, ErrorView>(s@),
            Err(e) => required_text(input.tree(), key@) == Err::<Seq<char>, ErrorView>(e@),
        },
{
    match input.text_of(key) {
        Some(s) => Ok(s.to_owned()),
        None => Err(LexError::Tool(cat3("参数 ", key, " 必须是字符串"))),
    }
}

/// Whether `raw` is the name of something in a directory: no separator, no drive, and neither the
/// directory itself nor the one above.
pub open spec fn is_name(raw: Seq<char>) -> bool {
    &&& forall|i: int|
        0 <= i < raw.len() ==> (#[trigger] raw[i]) != '/' && raw[i] != '\\' && raw[i] != ':'
    &&& raw != "."@
    &&& raw != ".."@
}

/// Whether `path` is `raw` under `base`: the one behind the other, with a separator between them.
pub open spec fn under(base: Seq<char>, raw: Seq<char>, path: Seq<char>) -> bool {
    path == base + seq!['/'] + raw || path == base + seq!['\\'] + raw
}

/// Whether `path` is `base` extended by `raw`: the one behind the other, with a separator between
/// them or without.
pub open spec fn extended_by(base: Seq<char>, raw: Seq<char>, path: Seq<char>) -> bool {
    path == base + raw || under(base, raw, path)
}

/// Whether a path is relative on every platform: it has neither a root nor a drive.
pub open spec fn is_relative(raw: Seq<char>) -> bool {
    &&& !raw.contains(':')
    &&& !raw.contains('\\')
    &&& !(raw.len() > 0 && raw[0] == '/')
}

/// Whether a path has no drive and nothing like one on any platform.
pub open spec fn is_driveless(base: Seq<char>) -> bool {
    &&& !base.contains(':')
    &&& !base.contains('\\')
    &&& !(base.len() > 1 && base[0] == '/' && base[1] == '/')
}

/// Whether `path` is what `raw` stands for at `base`. A relative path extends `base`; behind a `base`
/// that does not end in a separator, and is no drive, a separator comes first. A path that begins
/// with a slash stands for itself, with at most the drive of `base` before it. A name stands at the
/// end of the path as it is.
pub open spec fn stands_for(base: Seq<char>, raw: Seq<char>, path: Seq<char>) -> bool {
    &&& is_name(raw) ==> raw.is_suffix_of(path)
    &&& is_relative(raw) && !base.contains('\\') ==> extended_by(base, raw, path)
    &&& is_relative(raw) && !base.contains('\\') && !base.contains(':') && base.len() > 0
        && base.last() != '/' ==> under(base, raw, path)
    &&& raw.len() > 0 && raw[0] == '/' && !base.contains('\\') ==> raw.is_suffix_of(path)
    &&& raw.len() > 0 && raw[0] == '/' && is_driveless(base) ==> path == raw
}

/// `std::path::Path::join`: `base` extended by `raw`, or `raw` in place of it where `raw` is
/// absolute; see [`stands_for`]. What a path with a drive or a backslash in it leads to, and which
/// separator is put in, is the platform's affair, so that nothing more is stated.
#[verifier::external_body]
fn join_path(base: &str, raw: &str) -> (r: String)
    ensures
        stands_for(base@, raw@, r@),
{
    std::path::Path::new(base).join(raw).to_string_lossy().into_owned()
}

/// The path that `raw` stands for: under the working directory, unless it is absolute. Of paths with
/// a drive or a backslash in them it depends on the platform what they stand for.
pub fn resolve_path(ctx: &ToolContext, raw: &str) -> (r: String)
    ensures
        stands_for(ctx.cwd@, raw@, r@),
{
    join_path(ctx.cwd.as_str(), raw)
}

/// On a machine whose working directory has neither a drive nor a backslash, an absolute path stands
/// for itself, and a relative one stands below the working directory.
pub proof fn law_paths_stand_below_the_directory(cwd: Seq<char>, raw: Seq<char>, path: Seq<char>)
    requires
        stands_for(cwd, raw, path),
        is_driveless(cwd),
        cwd.len() > 0,
        cwd.last() != '/',
    ensures
        raw.len() > 0 && raw[0] == '/' ==> path == raw,
        is_relative(raw) ==> cwd.is_prefix_of(path) && raw.is_suffix_of(path) && path.len() == cwd.len()
            + 1 + raw.len(),
{
    if is_relative(raw) {
        let sep = if path == cwd + seq!['/'] + raw {
            seq!['/']
        } else {
            seq!['\\']
        };
        assert(path == cwd + sep + raw);
        assert(path.subrange(0, cwd.len() as int) =~= cwd);
        assert(path.subrange(path.len() - raw.len(), path.len() as int) =~= raw);
    }
}

/// How a file that cannot be read is told.
pub open spec fn unreadable_file(path: Seq<char>, why: Seq<char>) -> ErrorView {
    ErrorView::Tool("读取 "@ + path + " 失败: "@ + why)
}

/// Tells a file that cannot be read.
pub fn read_error(path: &str, why: &str) -> (r: LexError)
    ensures
        r@ == unreadable_file(path@, why@),
{
    LexError::Tool(cat4("读取 ", path, " 失败: ", why))
}

/// What the input of the tool looks like.
pub open spec fn file_read_schema() -> JsonTree {
    object_schema(seq![("path"@, described_as("string"@, "文件路径"@))], seq!["path"@])
}

/// What the model is told of the tool.
pub const DESCRIPTION: &'static str =
    "读取指定路径的文本文件内容(相对路径基于当前工作目录)";

impl Tool for FileRead {
    fn name(&self) -> (r: &str)
        ensures
            r@ == "file_read"@,
    {
        "file_read"
    }

    fn description(&self) -> (r: String)
        ensures
            r@ == DESCRIPTION@,
    {
        DESCRIPTION.to_owned()
    }

    fn schema(&self) -> (r: Json)
        ensures
            r.tree() == file_read_schema(),
    {
        let mut p: Vec<(String, Json)> = Vec::new();
        p.push(("path".to_owned(), describe_as("string", "文件路径")));
        let mut q: Vec<&str> = Vec::new();
        q.push("path");
        assert(members(p@) =~= seq![("path"@, described_as("string"@, "文件路径"@))]);
        assert(str_views(q@) =~= seq!["path"@]);
        make_schema(p, q)
    }

    fn read_only(&self) -> (r: bool)
        ensures
            r,
    {
        true
    }
}

} // verus!
