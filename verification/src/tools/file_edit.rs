//! Editing a file.
use vstd::prelude::*;
use vstd::string::*;
use vstd::utf8::encode_utf8;
use crate::error::{ErrorView, LexError, Result};
use crate::json::{members, Json, JsonTree};
use crate::text::{
    cat2, cat3, cat5, contains, count_matches, count_of, dec, dec_text, find, find_chars, has_text,
    lemma_find_from, lemma_replace_empty, lemma_replace_none, lemma_replace_step, lemma_returns_step,
    occurs_at, replace_all, replaced, sub_text, to_chars,
};
use crate::tools::file_read::{read_error, require_str, unreadable_file};
use crate::tools::{describe_as, described_as, make_schema, object_schema, str_views, Tool};

verus! {

/// Replaces one place in a file, or writes a file that is new or empty.
#[derive(Debug)]
pub struct FileEdit;

/// What an edit asks for.
#[derive(Debug)]
pub struct EditRequest {
    pub path: String,
    pub old_string: String,
    pub new_string: String,
}

/// What there is at the path of an edit.
#[derive(Debug)]
pub enum FileState {
    Missing,
    Text(String),
    /// Something that cannot be read, and why.
    Unreadable(String),
}

/// What there is at the path of an edit.
pub enum FileView {
    Missing,
    Text(Seq<char>),
    Unreadable(Seq<char>),
}

impl View for FileState {
    type V = FileView;

    open spec fn view(&self) -> FileView {
        match self {
            FileState::Missing => FileView::Missing,
            FileState::Text(s) => FileView::Text(s@),
            FileState::Unreadable(e) => FileView::Unreadable(e@),
        }
    }
}

/// What an edit writes.
#[derive(Debug, PartialEq)]
pub struct EditPlan {
    pub content: String,
    /// Whether the directories above have to be made first.
    pub create_parents: bool,
    /// What is told when it is written.
    pub message: String,
}

/// What an edit writes.
#[verifier::ext_equal]
pub struct PlanView {
    pub content: Seq<char>,
    pub create_parents: bool,
    pub message: Seq<char>,
}

impl View for EditPlan {
    type V = PlanView;

    open spec fn view(&self) -> PlanView {
        PlanView {
            content: self.content@,
            create_parents: self.create_parents,
            message: self.message@,
        }
    }
}

/// A text with the line endings of a file: `\r\n` throughout, or `\n` throughout.
pub open spec fn aligned(s: Seq<char>, crlf: bool) -> Seq<char> {
    let lf = replace_all(s, "\r\n"@, "\n"@);
    if crlf {
        replace_all(lf, "\n"@, "\r\n"@)
    } else {
        lf
    }
}

/// Gives a text the line endings of a file.
pub fn align_line_endings(text: &str, target_crlf: bool) -> (r: String)
    ensures
        r@ == aligned(text@, target_crlf),
{
    let lf = replaced(text, "\r\n", "\n");
    if target_crlf {
        replaced(lf.as_str(), "\n", "\r\n")
    } else {
        lf
    }
}

/// Whether an edit is to be given the line endings of the file: the file has `\r\n`, and the text
/// to be replaced has not.
pub open spec fn wants_crlf(content: Seq<char>, old_string: Seq<char>) -> bool {
    contains(content, "\r\n"@) && !contains(old_string, "\r\n"@)
}

/// What is looked for in a file.
pub open spec fn looked_for(content: Seq<char>, old_string: Seq<char>) -> Seq<char> {
    if wants_crlf(content, old_string) {
        aligned(old_string, true)
    } else {
        old_string
    }
}

/// What takes its place.
pub open spec fn put_in(
    content: Seq<char>,
    old_string: Seq<char>,
    new_string: Seq<char>,
) -> Seq<char> {
    if wants_crlf(content, old_string) {
        aligned(new_string, true)
    } else {
        new_string
    }
}

/// `s` with the first occurrence of `p` replaced by `w`.
pub open spec fn replace_first(s: Seq<char>, p: Seq<char>, w: Seq<char>) -> Seq<char> {
    match find(s, p) {
        Some(i) => s.take(i) + w + s.skip(i + p.len()),
        None => s,
    }
}

/// What an edit comes to. With nothing to replace, it writes a file that is new or empty and no
/// other; with something to replace, that has to stand in the file exactly once.
pub open spec fn planned(
    path: Seq<char>,
    old_string: Seq<char>,
    new_string: Seq<char>,
    file: FileView,
) -> core::result::Result<PlanView, ErrorView> {
    if old_string.len() == 0 {
        let write = PlanView {
            content: new_string,
            create_parents: file is Missing,
            message: "已写入 "@ + path,
        };
        match file {
            FileView::Missing => Ok(write),
            FileView::Text(s) => if s.len() == 0 {
                Ok(write)
            } else {
                Err(
                    ErrorView::Tool(
                        "空 old_string 仅支持新建文件或写入空文件;"@ + path + " 已有内容("@ + dec(
                            (encode_utf8(s).len() as usize) as nat,
                        ) + " 字节),请提供唯一的 old_string 做替换"@,
                    ),
                )
            },
            FileView::Unreadable(e) => Err(unreadable_file(path, e)),
        }
    } else {
        match file {
            FileView::Missing => Err(
                ErrorView::Tool(
                    "读取 "@ + path
                        + " 失败:文件不存在;新建文件请把 old_string 置空、new_string 传完整内容"@,
                ),
            ),
            FileView::Unreadable(e) => Err(unreadable_file(path, e)),
            FileView::Text(content) => {
                let p = looked_for(content, old_string);
                let n = count_matches(content, p);
                if n == 0 {
                    Err(
                        ErrorView::Tool(
                            "在 "@ + path
                                + " 中未找到 old_string(若文件为 CRLF 已自动对齐仍失败,请先用 file_read 确认原文)"@,
                        ),
                    )
                } else if n == 1 {
                    Ok(
                        PlanView {
                            content: replace_first(
                                content,
                                p,
                                put_in(content, old_string, new_string),
                            ),
                            create_parents: false,
                            message: "已修改 "@ + path,
                        },
                    )
                } else {
                    Err(
                        ErrorView::Tool(
                            "old_string 在 "@ + path + " 中命中 "@ + dec(n)
                                + " 处,要求唯一命中;请扩大上下文使其唯一"@,
                        ),
                    )
                }
            },
        }
    }
}

fn replace_once(s: &str, p: &str, w: &str) -> (r: String)
    ensures
        r@ == replace_first(s@, p@, w@),
{
    let v = to_chars(s);
    let q = to_chars(p);
    proof {
        lemma_find_from(s@, p@, 0);
    }
    match find_chars(&v, &q, 0) {
        Some(i) => {
            let n: usize = v.len();
            let head = sub_text(&v, 0, i);
            let tail = sub_text(&v, i + q.len(), n);
            assert(head@ =~= s@.take(i as int));
            assert(tail@ =~= s@.skip(i + p@.len()));
            cat3(head.as_str(), w, tail.as_str())
        },
        None => s.to_owned(),
    }
}

impl FileEdit {
    /// Reads what an edit asks for.
    pub fn parse(&self, input: &Json) -> (r: Result<EditRequest>)
        ensures
            ({
                let t = input.tree();
                match r {
                    Ok(e) => {
                        &&& t.text_of("path"@) == Some(e.path@)
                        &&& t.text_of("old_string"@) == Some(e.old_string@)
                        &&& t.text_of("new_string"@) == Some(e.new_string@)
                    },
                    Err(e) => if t.text_of("path"@) is None {
                        e@ == ErrorView::Tool("参数 "@ + "path"@ + " 必须是字符串"@)
                    } else if t.text_of("old_string"@) is None {
                        e@ == ErrorView::Tool("参数 "@ + "old_string"@ + " 必须是字符串"@)
                    } else {
                        &&& t.text_of("new_string"@) is None
                        &&& e@ == ErrorView::Tool("参数 "@ + "new_string"@ + " 必须是字符串"@)
                    },
                }
            }),
    {
        let path = match require_str(input, "path") {
            Ok(s) => s,
            Err(e) => {
                return Err(e);
            },
        };
        let old_string = match require_str(input, "old_string") {
            Ok(s) => s,
            Err(e) => {
                return Err(e);
            },
        };
        let new_string = match require_str(input, "new_string") {
            Ok(s) => s,
            Err(e) => {
                return Err(e);
            },
        };
        Ok(EditRequest { path, old_string, new_string })
    }

    /// What an edit of the file at `path` comes to, given what there is.
    pub fn plan(&self, path: &str, old_string: &str, new_string: &str, file: &FileState) -> (r:
        Result<EditPlan>)
        ensures
            match r {
                Ok(p) => planned(path@, old_string@, new_string@, file@) == Ok::<
                    PlanView,
                    ErrorView,
                >(p@),
                Err(e) => planned(path@, old_string@, new_string@, file@) == Err::<
                    PlanView,
                    ErrorView,
                >(e@),
            },
    {
        if old_string.is_empty() {
            let create_parents = match file {
                FileState::Missing => true,
                FileState::Text(s) => {
                    if !s.as_str().is_empty() {
                        let n = dec_text(s.as_str().len() as u64);
                        return Err(
                            LexError::Tool(
                                cat5(
                                    "空 old_string 仅支持新建文件或写入空文件;",
                                    path,
                                    " 已有内容(",
                                    n.as_str(),
                                    " 字节),请提供唯一的 old_string 做替换",
                                ),
                            ),
                        );
                    }
                    false
                },
                FileState::Unreadable(e) => {
                    return Err(read_error(path, e.as_str()));
                },
            };
            return Ok(
                EditPlan {
                    content: new_string.to_owned(),
                    create_parents,
                    message: cat2("已写入 ", path),
                },
            );
        }
        let content = match file {
            FileState::Missing => {
                return Err(
                    LexError::Tool(
                        cat3(
                            "读取 ",
                            path,
                            " 失败:文件不存在;新建文件请把 old_string 置空、new_string 传完整内容",
                        ),
                    ),
                );
            },
            FileState::Unreadable(e) => {
                return Err(read_error(path, e.as_str()));
            },
            FileState::Text(s) => s.as_str(),
        };
        let crlf = has_text(content, "\r\n") && !has_text(old_string, "\r\n");
        let wanted = if crlf {
            align_line_endings(old_string, true)
        } else {
            old_string.to_owned()
        };
        let given = if crlf {
            align_line_endings(new_string, true)
        } else {
            new_string.to_owned()
        };
        let hits = count_of(content, wanted.as_str());
        if hits == 0 {
            Err(
                LexError::Tool(
                    cat3(
                        "在 ",
                        path,
                        " 中未找到 old_string(若文件为 CRLF 已自动对齐仍失败,请先用 file_read 确认原文)",
                    ),
                ),
            )
        } else if hits == 1 {
            Ok(
                EditPlan {
                    content: replace_once(content, wanted.as_str(), given.as_str()),
                    create_parents: false,
                    message: cat2("已修改 ", path),
                },
            )
        } else {
            let n = dec_text(hits as u64);
            Err(
                LexError::Tool(
                    cat5(
                        "old_string 在 ",
                        path,
                        " 中命中 ",
                        n.as_str(),
                        " 处,要求唯一命中;请扩大上下文使其唯一",
                    ),
                ),
            )
        }
    }
}

/// An edit of a file that has content changes one place and nothing else: what stands before and
/// behind it stays, character by character.
pub proof fn law_edit_changes_one_place(
    path: Seq<char>,
    old_string: Seq<char>,
    new_string: Seq<char>,
    content: Seq<char>,
)
    requires
        content.len() > 0,
        planned(path, old_string, new_string, FileView::Text(content)) is Ok,
    ensures
        ({
            let p = looked_for(content, old_string);
            let out = planned(path, old_string, new_string, FileView::Text(content))->Ok_0.content;
            exists|i: int|
                {
                    &&& #[trigger] occurs_at(content, p, i)
                    &&& out == content.take(i) + put_in(content, old_string, new_string)
                        + content.skip(i + p.len())
                }
        }),
{
    let p = looked_for(content, old_string);
    lemma_find_from(content, p, 0);
    let i = find(content, p)->0;
    assert(occurs_at(content, p, i));
}

/// Whether a carriage return and a newline stand in a text side by side.
pub open spec fn has_crlf(s: Seq<char>) -> bool {
    exists|k: int| 0 <= k < s.len() - 1 && #[trigger] s[k] == '\r' && s[k + 1] == '\n'
}

/// A text in which every newline has a carriage return before it: one that has none gets one.
pub open spec fn in_crlf(t: Seq<char>) -> Seq<char>
    decreases t.len(),
{
    if t.len() == 0 {
        t
    } else if t.len() >= 2 && t[0] == '\r' && t[1] == '\n' {
        seq!['\r', '\n'] + in_crlf(t.skip(2))
    } else if t[0] == '\n' {
        seq!['\r', '\n'] + in_crlf(t.skip(1))
    } else {
        seq![t[0]] + in_crlf(t.skip(1))
    }
}

/// A text of an edit as it would stand in the file: with carriage returns before its newlines where
/// the file has them and the text to be replaced does not, and as it is otherwise.
pub open spec fn as_in(content: Seq<char>, old_string: Seq<char>, t: Seq<char>) -> Seq<char> {
    if has_crlf(content) && !has_crlf(old_string) {
        in_crlf(t)
    } else {
        t
    }
}

/// Whether `out` is `content` with the text `old` at `i` replaced by `new`, where `old` does not
/// begin anywhere before `i`, nor anywhere behind its end.
pub open spec fn replaced_at(
    content: Seq<char>,
    old: Seq<char>,
    new: Seq<char>,
    out: Seq<char>,
    i: int,
) -> bool {
    &&& 0 <= i
    &&& i + old.len() <= content.len()
    &&& content.subrange(i, i + old.len()) == old
    &&& out == content.take(i) + new + content.skip(i + old.len())
    &&& forall|j: int|
        (0 <= j < i || i + old.len() <= j) && j + old.len() <= content.len()
            ==> #[trigger] content.subrange(j, j + old.len()) != old
}

proof fn lemma_has_crlf(s: Seq<char>)
    ensures
        contains(s, "\r\n"@) == has_crlf(s),
{
    reveal_strlit("\r\n");
    if contains(s, "\r\n"@) {
        let i = choose|i: int| occurs_at(s, "\r\n"@, i);
        assert(s.subrange(i, i + 2)[0] == s[i]);
        assert(s.subrange(i, i + 2)[1] == s[i + 1]);
        assert(s[i] == '\r');
    }
    if has_crlf(s) {
        let k = choose|k: int| 0 <= k < s.len() - 1 && #[trigger] s[k] == '\r' && s[k + 1] == '\n';
        assert(s.subrange(k, k + 2) =~= "\r\n"@);
        assert(occurs_at(s, "\r\n"@, k));
    }
}

proof fn lemma_in_crlf(t: Seq<char>)
    ensures
        aligned(t, true) == in_crlf(t),
    decreases t.len(),
{
    reveal_strlit("\r\n");
    reveal_strlit("\n");
    if t.len() == 0 {
        lemma_replace_empty(t, "\r\n"@, "\n"@);
        lemma_replace_empty(t, "\n"@, "\r\n"@);
        assert(aligned(t, true) =~= t);
    } else {
        lemma_replace_step(t, "\r\n"@, "\n"@);
        let lf = replace_all(t, "\r\n"@, "\n"@);
        lemma_returns_step(lf);
        if t.len() >= 2 && t[0] == '\r' && t[1] == '\n' {
            assert(t.subrange(0, 2) =~= "\r\n"@);
            lemma_in_crlf(t.skip(2));
            let rest = replace_all(t.skip(2), "\r\n"@, "\n"@);
            assert(lf == "\n"@ + rest);
            assert(lf.skip(1) =~= rest);
            assert(aligned(t, true) =~= in_crlf(t));
        } else {
            assert(!occurs_at(t, "\r\n"@, 0)) by {
                if occurs_at(t, "\r\n"@, 0) {
                    assert(t.subrange(0, 2)[0] == t[0]);
                    assert(t.subrange(0, 2)[1] == t[1]);
                }
            }
            lemma_in_crlf(t.skip(1));
            let rest = replace_all(t.skip(1), "\r\n"@, "\n"@);
            assert(lf == seq![t[0]] + rest);
            assert(lf.skip(1) =~= rest);
            assert(aligned(t, true) =~= in_crlf(t));
        }
    }
}

/// A text that is counted once stands at one place, and neither before it nor behind its end.
proof fn lemma_counted_once(content: Seq<char>, p: Seq<char>, i: int)
    requires
        p.len() > 0,
        occurs_at(content, p, i),
        forall|j: int| 0 <= j < i ==> !occurs_at(content, p, j),
    ensures
        count_matches(content, p) == 1 <==> (forall|j: int|
            i + p.len() <= j ==> !occurs_at(content, p, j)),
        count_matches(content, p) >= 1,
{
    lemma_find_from(content, p, 0);
    assert(find(content, p) == Some(i));
    let rest = content.skip(i + p.len());
    assert(count_matches(content, p) == 1 + count_matches(rest, p));
    lemma_find_from(rest, p, 0);
    if count_matches(rest, p) == 0 {
        assert forall|j: int| i + p.len() <= j implies !occurs_at(content, p, j) by {
            if occurs_at(content, p, j) {
                assert(rest.subrange(j - i - p.len(), j - i) =~= content.subrange(j, j + p.len()));
                assert(occurs_at(rest, p, j - i - p.len()));
            }
        }
    } else {
        let k = find(rest, p)->0;
        assert(occurs_at(rest, p, k));
        assert(rest.subrange(k, k + p.len()) =~= content.subrange(
            i + p.len() + k,
            i + p.len() + k + p.len(),
        ));
        assert(occurs_at(content, p, i + p.len() + k));
    }
}

/// An edit that names what it replaces puts the new text in its place, whatever that text is, the
/// empty one too: it succeeds exactly where the old text stands in the file once, and then writes
/// what stands before it, the new text, and what stands behind it. In a file with carriage returns
/// before newlines, an old text without any is looked for with them, and the new one is put in
/// with them; otherwise both are taken as they are.
pub proof fn law_edit_puts_the_new_text_in(
    path: Seq<char>,
    old_string: Seq<char>,
    new_string: Seq<char>,
    content: Seq<char>,
)
    requires
        old_string.len() > 0,
    ensures
        match planned(path, old_string, new_string, FileView::Text(content)) {
            Ok(plan) => {
                &&& !plan.create_parents
                &&& exists|i: int|
                    #[trigger] replaced_at(
                        content,
                        as_in(content, old_string, old_string),
                        as_in(content, old_string, new_string),
                        plan.content,
                        i,
                    )
            },
            Err(_) => forall|i: int, out: Seq<char>|
                !#[trigger] replaced_at(
                    content,
                    as_in(content, old_string, old_string),
                    as_in(content, old_string, new_string),
                    out,
                    i,
                ),
        },
{
    lemma_has_crlf(content);
    lemma_has_crlf(old_string);
    lemma_in_crlf(old_string);
    lemma_in_crlf(new_string);
    lemma_in_crlf_grows(old_string);
    let p = looked_for(content, old_string);
    let w = put_in(content, old_string, new_string);
    assert(p == as_in(content, old_string, old_string));
    assert(w == as_in(content, old_string, new_string));
    lemma_find_from(content, p, 0);
    if let Some(i) = find(content, p) {
        lemma_counted_once(content, p, i);
        let out = content.take(i) + w + content.skip(i + p.len());
        if count_matches(content, p) == 1 {
            assert forall|j: int|
                (0 <= j < i || i + p.len() <= j) && j + p.len() <= content.len() implies (
            #[trigger] content.subrange(j, j + p.len())) != p by {
                assert(!occurs_at(content, p, j));
            }
            assert(replaced_at(content, p, w, out, i));
            assert(planned(path, old_string, new_string, FileView::Text(content))->Ok_0.content
                == out);
        } else {
            assert(planned(path, old_string, new_string, FileView::Text(content)) is Err);
            let j = choose|j: int| i + p.len() <= j && occurs_at(content, p, j);
            assert forall|k: int, other: Seq<char>| !#[trigger] replaced_at(
                content,
                p,
                w,
                other,
                k,
            ) by {
                if replaced_at(content, p, w, other, k) {
                    assert(occurs_at(content, p, k));
                    assert(content.subrange(i, i + p.len()) == p);
                    assert(content.subrange(j, j + p.len()) == p);
                }
            }
        }
    } else {
        assert(planned(path, old_string, new_string, FileView::Text(content)) is Err);
        assert forall|k: int, other: Seq<char>| !#[trigger] replaced_at(
            content,
            p,
            w,
            other,
            k,
        ) by {
            assert(!occurs_at(content, p, k));
        }
    }
}

proof fn lemma_in_crlf_grows(t: Seq<char>)
    ensures
        in_crlf(t).len() >= t.len(),
    decreases t.len(),
{
    if t.len() > 0 {
        lemma_in_crlf_grows(t.skip(1));
        if t.len() >= 2 {
            lemma_in_crlf_grows(t.skip(2));
        }
    }
}

/// An edit that names nothing to replace writes the new text as it is, into a file that is missing
/// or empty; directories are made only for a file that is missing. A file that cannot be read is
/// never written.
pub proof fn law_new_file_is_the_new_text(
    path: Seq<char>,
    old_string: Seq<char>,
    text: Seq<char>,
    why: Seq<char>,
)
    ensures
        ({
            let missing = planned(path, Seq::empty(), text, FileView::Missing);
            &&& missing is Ok
            &&& missing->Ok_0.content == text
            &&& missing->Ok_0.create_parents
        }),
        ({
            let empty = planned(path, Seq::empty(), text, FileView::Text(Seq::empty()));
            &&& empty is Ok
            &&& empty->Ok_0.content == text
            &&& !empty->Ok_0.create_parents
        }),
        planned(path, old_string, text, FileView::Unreadable(why)) is Err,
        old_string.len() > 0 ==> planned(path, old_string, text, FileView::Missing) is Err,
{
}

/// A file with content is never written over: an edit without something to replace is refused.
pub proof fn law_content_is_not_overwritten(
    path: Seq<char>,
    new_string: Seq<char>,
    content: Seq<char>,
)
    requires
        content.len() > 0,
    ensures
        planned(path, Seq::empty(), new_string, FileView::Text(content)) is Err,
{
}

/// What the input of the tool looks like.
pub open spec fn file_edit_schema() -> JsonTree {
    object_schema(
        seq![
            ("path"@, described_as("string"@, "文件路径"@)),
            ("old_string"@, described_as("string"@, "要被替换的精确原文(必须唯一命中)"@)),
            ("new_string"@, described_as("string"@, "替换后的内容"@)),
        ],
        seq!["path"@, "old_string"@, "new_string"@],
    )
}

/// What the model is told of the tool.
pub const DESCRIPTION: &'static str =
    "以最小化定位替换修改文件:old_string 必须在文件中唯一命中;新建文件或写入空文件时 old_string 置空、new_string 传完整内容,不支持覆盖非空文件";

impl Tool for FileEdit {
    fn name(&self) -> (r: &str)
        ensures
            r@ == "file_edit"@,
    {
        "file_edit"
    }

    fn description(&self) -> (r: String)
        ensures
            r@ == DESCRIPTION@,
    {
        DESCRIPTION.to_owned()
    }

    fn schema(&self) -> (r: Json)
        ensures
            r.tree() == file_edit_schema(),
    {
        let mut p: Vec<(String, Json)> = Vec::new();
        p.push(("path".to_owned(), describe_as("string", "文件路径")));
        p.push(
            ("old_string".to_owned(), describe_as("string", "要被替换的精确原文(必须唯一命中)")),
        );
        p.push(("new_string".to_owned(), describe_as("string", "替换后的内容")));
        let mut q: Vec<&str> = Vec::new();
        q.push("path");
        q.push("old_string");
        q.push("new_string");
        assert(members(p@) =~= seq![
            ("path"@, described_as("string"@, "文件路径"@)),
            ("old_string"@, described_as("string"@, "要被替换的精确原文(必须唯一命中)"@)),
            ("new_string"@, described_as("string"@, "替换后的内容"@)),
        ]);
        assert(str_views(q@) =~= seq!["path"@, "old_string"@, "new_string"@]);
        make_schema(p, q)
    }

    fn read_only(&self) -> (r: bool)
        ensures
            !r,
    {
        false
    }
}

/// In a text with carriage returns before its newlines there is one before every newline, and none of
/// its newlines comes first.
proof fn lemma_returns_before_newlines(x: Seq<char>)
    ensures
        ({
            let r = replace_all(x, "\n"@, "\r\n"@);
            &&& r.len() > 0 ==> r[0] != '\n'
            &&& forall|i: int|
                0 <= i < r.len() && #[trigger] r[i] == '\n' ==> i > 0 && r[i - 1] == '\r'
        }),
    decreases x.len(),
{
    reveal_strlit("\n");
    if x.len() == 0 {
        lemma_replace_empty(x, "\n"@, "\r\n"@);
    } else {
        lemma_returns_before_newlines(x.skip(1));
        lemma_returns_step(x);
        let t = replace_all(x.skip(1), "\n"@, "\r\n"@);
        let n: int = if x[0] == '\n' {
            2
        } else {
            1
        };
        let r = replace_all(x, "\n"@, "\r\n"@);
        assert forall|i: int| 0 <= i < r.len() && #[trigger] r[i] == '\n' implies i > 0 && r[i - 1]
            == '\r' by {
            if i >= n {
                assert(t[i - n] == '\n');
                assert(r[i - 1] == t[i - n - 1]);
            }
        }
    }
}

/// Carriage returns that were put before newlines are taken away again, and no others.
proof fn lemma_returns_taken_away(x: Seq<char>)
    ensures
        replace_all(replace_all(x, "\n"@, "\r\n"@), "\r\n"@, "\n"@) == x,
    decreases x.len(),
{
    reveal_strlit("\n");
    reveal_strlit("\r\n");
    if x.len() == 0 {
        lemma_replace_empty(x, "\n"@, "\r\n"@);
        lemma_replace_empty(x, "\r\n"@, "\n"@);
    } else {
        let t = x.skip(1);
        let rt = replace_all(t, "\n"@, "\r\n"@);
        lemma_returns_taken_away(t);
        lemma_returns_step(x);
        lemma_returns_before_newlines(t);
        let r = replace_all(x, "\n"@, "\r\n"@);
        lemma_replace_step(r, "\r\n"@, "\n"@);
        if x[0] == '\n' {
            assert(r.subrange(0, 2) =~= "\r\n"@);
            assert(r.skip(2) =~= rt);
            assert("\n"@ + t =~= x);
        } else {
            if occurs_at(r, "\r\n"@, 0) {
                assert(r.subrange(0, 2)[1] == '\n');
                assert(r[1] == rt[0]);
            }
            assert(r.skip(1) =~= rt);
            assert(seq![x[0]] + t =~= x);
        }
    }
}

/// Line endings that are aligned are so throughout: with carriage returns there is one before every
/// newline. Aligning again changes nothing, going back leads to what there would be without, and a
/// text without carriage returns before newlines has nothing to lose.
pub proof fn law_line_endings(t: Seq<char>)
    ensures
        forall|i: int|
            0 <= i < aligned(t, true).len() && #[trigger] aligned(t, true)[i] == '\n' ==> i > 0
                && aligned(t, true)[i - 1] == '\r',
        aligned(aligned(t, true), true) == aligned(t, true),
        aligned(aligned(t, true), false) == aligned(t, false),
        !contains(t, "\r\n"@) ==> aligned(t, false) == t,
{
    let lf = replace_all(t, "\r\n"@, "\n"@);
    lemma_returns_before_newlines(lf);
    lemma_returns_taken_away(lf);
    if !contains(t, "\r\n"@) {
        lemma_replace_none(t, "\r\n"@, "\n"@);
    }
}

} // verus!
