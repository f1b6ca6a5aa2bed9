//! The library's error type.
use vstd::prelude::*;
use vstd::string::*;
use crate::text::cat2;

verus! {

/// What can go wrong. Failures of outside services are carried as their message.
#[derive(Debug, PartialEq)]
pub enum LexError {
    Config(String),
    Io(String),
    Http(String),
    Json(String),
    Provider(String),
    Tool(String),
    PermissionDenied(String),
}

/// A result with the library's error.
pub type Result<T> = core::result::Result<T, LexError>;

/// What an error says.
pub enum ErrorView {
    Config(Seq<char>),
    Io(Seq<char>),
    Http(Seq<char>),
    Json(Seq<char>),
    Provider(Seq<char>),
    Tool(Seq<char>),
    PermissionDenied(Seq<char>),
}

impl View for LexError {
    type V = ErrorView;

    open spec fn view(&self) -> ErrorView {
        match self {
            LexError::Config(m) => ErrorView::Config(m@),
            LexError::Io(m) => ErrorView::Io(m@),
            LexError::Http(m) => ErrorView::Http(m@),
            LexError::Json(m) => ErrorView::Json(m@),
            LexError::Provider(m) => ErrorView::Provider(m@),
            LexError::Tool(m) => ErrorView::Tool(m@),
            LexError::PermissionDenied(m) => ErrorView::PermissionDenied(m@),
        }
    }
}

impl ErrorView {
    /// The text shown to the user.
    pub open spec fn shown(self) -> Seq<char> {
        match self {
            ErrorView::Config(m) => "配置错误: "@ + m,
            ErrorView::Io(m) => "IO 错误: "@ + m,
            ErrorView::Http(m) => "网络错误: "@ + m,
            ErrorView::Json(m) => "JSON 错误: "@ + m,
            ErrorView::Provider(m) => "Provider 协议错误: "@ + m,
            ErrorView::Tool(m) => "工具执行失败: "@ + m,
            ErrorView::PermissionDenied(m) => "权限被拒绝: "@ + m,
        }
    }
}

impl LexError {
    /// The text shown to the user: the kind of failure, then its message.
    pub fn to_string(&self) -> (r: String)
        ensures
            r@ == self@.shown(),
    {
        match self {
            LexError::Config(m) => cat2("配置错误: ", m.as_str()),
            LexError::Io(m) => cat2("IO 错误: ", m.as_str()),
            LexError::Http(m) => cat2("网络错误: ", m.as_str()),
            LexError::Json(m) => cat2("JSON 错误: ", m.as_str()),
            LexError::Provider(m) => cat2("Provider 协议错误: ", m.as_str()),
            LexError::Tool(m) => cat2("工具执行失败: ", m.as_str()),
            LexError::PermissionDenied(m) => cat2("权限被拒绝: ", m.as_str()),
        }
    }
}

/// An error is told by what it says, whole and last, and by a word for its kind before that.
pub proof fn law_errors_say_what_they_say(m: Seq<char>)
    ensures
        m.is_suffix_of(ErrorView::Config(m).shown()),
        m.is_suffix_of(ErrorView::Io(m).shown()),
        m.is_suffix_of(ErrorView::Http(m).shown()),
        m.is_suffix_of(ErrorView::Json(m).shown()),
        m.is_suffix_of(ErrorView::Provider(m).shown()),
        m.is_suffix_of(ErrorView::Tool(m).shown()),
        m.is_suffix_of(ErrorView::PermissionDenied(m).shown()),
        "工具执行失败: "@.is_prefix_of(ErrorView::Tool(m).shown()),
        "配置错误: "@.is_prefix_of(ErrorView::Config(m).shown()),
        "Provider 协议错误: "@.is_prefix_of(ErrorView::Provider(m).shown()),
        "网络错误: "@.is_prefix_of(ErrorView::Http(m).shown()),
        "权限被拒绝: "@.is_prefix_of(ErrorView::PermissionDenied(m).shown()),
        "IO 错误: "@.is_prefix_of(ErrorView::Io(m).shown()),
        "JSON 错误: "@.is_prefix_of(ErrorView::Json(m).shown()),
{
    assert forall|p: Seq<char>| m.is_suffix_of(#[trigger] (p + m)) && p.is_prefix_of(p + m) by {
        let s = p + m;
        assert(s.subrange(s.len() - m.len(), s.len() as int) =~= m);
        assert(s.subrange(0, p.len() as int) =~= p);
    }
}

} // verus!
