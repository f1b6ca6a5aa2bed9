//! The project's own instructions.
use vstd::prelude::*;
use vstd::string::*;
use crate::text::{all_white, cat5, lemma_trim_empty, trim, trimmed};

verus! {

/// The heading under which the instructions stand in the system prompt.
pub const INJECTION_HEADER: &'static str = "# 项目指引(AGENTS.md)";

/// The instructions in the text of an `AGENTS.md`: all of it but white space at its ends; nothing
/// where there is no file or only white space in it.
pub open spec fn instructions(text: Option<Seq<char>>) -> Option<Seq<char>> {
    match text {
        Some(t) => if trim(t).len() == 0 {
            None
        } else {
            Some(trim(t))
        },
        None => None,
    }
}

/// The instructions in the text of an `AGENTS.md`, where there is such a file.
pub fn load_agents_md(text: Option<&str>) -> (r: Option<String>)
    ensures
        match r {
            Some(s) => text is Some && instructions(Some(text->0@)) == Some(s@),
            None => text is None || instructions(Some(text->0@)) is None,
        },
{
    match text {
        Some(t) => {
            let s = trimmed(t);
            if s.as_str().is_empty() {
                None
            } else {
                Some(s)
            }
        },
        None => None,
    }
}

/// The system prompt with the instructions behind it.
pub open spec fn assembled(base: Seq<char>, md: Option<Seq<char>>) -> Seq<char> {
    match md {
        Some(m) => base + "\n\n"@ + INJECTION_HEADER@ + "\n\n"@ + m,
        None => base,
    }
}

/// Puts the instructions behind the system prompt.
pub fn assemble_system_prompt(base: &str, agents_md: Option<&str>) -> (r: String)
    ensures
        r@ == assembled(
            base@,
            match agents_md {
                Some(m) => Some(m@),
                None => None,
            },
        ),
{
    match agents_md {
        Some(m) => cat5(base, "\n\n", INJECTION_HEADER, "\n\n", m),
        None => base.to_owned(),
    }
}

/// Whatever the instructions are, the system prompt stays the start of what is sent, character by
/// character; without instructions it is all of it.
pub proof fn law_base_stays_the_prefix(base: Seq<char>, md: Option<Seq<char>>)
    ensures
        base.is_prefix_of(assembled(base, md)),
        md is None ==> assembled(base, md) == base,
{
    let all = assembled(base, md);
    assert(base =~= all.subrange(0, base.len() as int));
}

/// The instructions of a project are the text of its file without white space at its ends; there are
/// none where there is no file or nothing else in it. They are sent behind the system prompt, whole,
/// under a heading.
pub proof fn law_instructions_are_sent_whole(base: Seq<char>, text: Seq<char>)
    ensures
        instructions(None) is None,
        all_white(text) ==> instructions(Some(text)) is None,
        !all_white(text) ==> instructions(Some(text)) == Some(trim(text)),
        assembled(base, None) == base,
        assembled(base, Some(text)) == base + "\n\n"@ + INJECTION_HEADER@ + "\n\n"@ + text,
        text.is_suffix_of(assembled(base, Some(text))),
{
    lemma_trim_empty(text);
    let all = assembled(base, Some(text));
    assert(all.subrange(all.len() - text.len(), all.len() as int) =~= text);
}

} // verus!
