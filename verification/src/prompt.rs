//! The system prompt.
use vstd::prelude::*;
use vstd::string::*;
use crate::text::{
    cat3, contains, find, lemma_find_from, lemma_replace_none, occurs_at, replace_all, replaced, same,
};

verus! {

/// The file that holds the system prompt, where none is configured.
pub const DEFAULT_ASSET_NAME: &'static str = "coding-agent-system-prompt.md";

/// The variables of a prompt: their names and values.
pub open spec fn var_views(vars: Seq<(&str, String)>) -> Seq<(Seq<char>, Seq<char>)> {
    Seq::new(vars.len(), |i: int| (vars[i].0@, vars[i].1@))
}

/// The value of the first variable at or after `i` with this name.
pub open spec fn value_from(
    vars: Seq<(Seq<char>, Seq<char>)>,
    name: Seq<char>,
    i: int,
) -> Option<Seq<char>>
    decreases vars.len() - i,
{
    if i >= vars.len() {
        None
    } else if vars[i].0 == name {
        Some(vars[i].1)
    } else {
        value_from(vars, name, i + 1)
    }
}

/// How a variable is written in a template.
pub open spec fn placeholder(name: Seq<char>) -> Seq<char> {
    "{{"@ + name + "}}"@
}

/// A template with one variable filled in, where it has a value.
pub open spec fn filled(
    t: Seq<char>,
    vars: Seq<(Seq<char>, Seq<char>)>,
    name: Seq<char>,
) -> Seq<char> {
    match value_from(vars, name, 0) {
        Some(v) => replace_all(t, placeholder(name), v),
        None => t,
    }
}

/// A template with the known variables filled in, one after the other.
pub open spec fn rendered(t: Seq<char>, vars: Seq<(Seq<char>, Seq<char>)>) -> Seq<char> {
    let t = filled(t, vars, "CWD"@);
    let t = filled(t, vars, "OS"@);
    let t = filled(t, vars, "PROJECT_TYPE"@);
    filled(t, vars, "TOOL_TODO"@)
}

fn value_of<'a>(vars: &'a Vec<(&str, String)>, name: &str) -> (r: Option<&'a String>)
    ensures
        match r {
            Some(v) => value_from(var_views(vars@), name@, 0) == Some(v@),
            None => value_from(var_views(vars@), name@, 0) is None,
        },
{
    let mut i: usize = 0;
    while i < vars.len()
        invariant
            i <= vars@.len(),
            value_from(var_views(vars@), name@, 0) == value_from(var_views(vars@), name@, i as int),
        decreases vars@.len() - i,
    {
        assert(var_views(vars@)[i as int] == (vars@[i as int].0@, vars@[i as int].1@));
        if same(vars[i].0, name) {
            return Some(&vars[i].1);
        }
        i = i + 1;
    }
    None
}

fn fill(t: String, vars: &Vec<(&str, String)>, name: &str) -> (r: String)
    ensures
        r@ == filled(t@, var_views(vars@), name@),
{
    match value_of(vars, name) {
        Some(v) => {
            let p = cat3("{{", name, "}}");
            replaced(t.as_str(), p.as_str(), v.as_str())
        },
        None => t,
    }
}

/// Fills the known variables in; anything else in double braces stays as it is.
pub fn render_template(template: &str, vars: &Vec<(&str, String)>) -> (r: String)
    ensures
        r@ == rendered(template@, var_views(vars@)),
{
    let t = fill(template.to_owned(), vars, "CWD");
    let t = fill(t, vars, "OS");
    let t = fill(t, vars, "PROJECT_TYPE");
    fill(t, vars, "TOOL_TODO")
}

/// Without variables a template stays as it is, character by character.
pub proof fn law_no_variables_no_change(t: Seq<char>)
    ensures
        rendered(t, Seq::empty()) == t,
{
}

/// A template in which no known variable is written stays as it is, whatever the variables are.
pub proof fn law_no_placeholder_no_change(t: Seq<char>, vars: Seq<(Seq<char>, Seq<char>)>)
    requires
        !contains(t, placeholder("CWD"@)),
        !contains(t, placeholder("OS"@)),
        !contains(t, placeholder("PROJECT_TYPE"@)),
        !contains(t, placeholder("TOOL_TODO"@)),
    ensures
        rendered(t, vars) == t,
{
    assert forall|name: Seq<char>| !contains(t, placeholder(name)) implies #[trigger] filled(
        t,
        vars,
        name,
    ) == t by {
        if let Some(v) = value_from(vars, name, 0) {
            lemma_replace_none(t, placeholder(name), v);
        }
    }
}

/// Which file is the system prompt: where one is configured, that one and no other; else the first
/// of the default places that is there. Given is, for each place, whether it is a file.
pub fn choose_prompt(configured: Option<bool>, in_cwd: bool, beside_exe: Option<bool>) -> (r:
    PromptPlace)
    ensures
        r == (match configured {
            Some(there) => if there {
                PromptPlace::Configured
            } else {
                PromptPlace::Nowhere
            },
            None => if in_cwd {
                PromptPlace::InCwd
            } else if beside_exe == Some(true) {
                PromptPlace::BesideExe
            } else {
                PromptPlace::Nowhere
            },
        }),
{
    match configured {
        Some(there) => if there {
            PromptPlace::Configured
        } else {
            PromptPlace::Nowhere
        },
        None => if in_cwd {
            PromptPlace::InCwd
        } else {
            match beside_exe {
                Some(true) => PromptPlace::BesideExe,
                _ => PromptPlace::Nowhere,
            }
        },
    }
}

/// Where the system prompt is.
#[derive(Debug, Clone, Copy, PartialEq, Eq, Structural)]
pub enum PromptPlace {
    Configured,
    InCwd,
    BesideExe,
    Nowhere,
}

proof fn lemma_value_from(vars: Seq<(Seq<char>, Seq<char>)>, name: Seq<char>, i: int, k: int)
    requires
        0 <= i <= k < vars.len(),
        vars[k].0 == name,
        forall|j: int| 0 <= j < k ==> (#[trigger] vars[j]).0 != name,
    ensures
        value_from(vars, name, i) == Some(vars[k].1),
    decreases k - i,
{
    if i < k {
        assert(vars[i].0 != name);
        lemma_value_from(vars, name, i + 1, k);
    }
}

proof fn lemma_no_brace(t: Seq<char>, vars: Seq<(Seq<char>, Seq<char>)>, name: Seq<char>)
    requires
        !t.contains('{'),
    ensures
        filled(t, vars, name) == t,
{
    let p = placeholder(name);
    reveal_strlit("{{");
    assert(p[0] == '{');
    if contains(t, p) {
        let i = choose|i: int| occurs_at(t, p, i);
        assert(t.subrange(i, i + p.len())[0] == t[i]);
        assert(t.contains('{'));
    }
    if let Some(v) = value_from(vars, name, 0) {
        lemma_replace_none(t, p, v);
    }
}

proof fn lemma_one_place(
    a: Seq<char>,
    written: Seq<char>,
    b: Seq<char>,
    vars: Seq<(Seq<char>, Seq<char>)>,
    name: Seq<char>,
)
    requires
        !a.contains('{'),
        !b.contains('{'),
        !written.contains('{'),
        !name.contains('{'),
        !written.contains('}'),
        !name.contains('}'),
    ensures
        written != name ==> filled(a + placeholder(written) + b, vars, name) == a + placeholder(
            written,
        ) + b,
        written == name && value_from(vars, name, 0) is Some ==> filled(
            a + placeholder(written) + b,
            vars,
            name,
        ) == a + value_from(vars, name, 0)->0 + b,
{
    reveal_strlit("{{");
    reveal_strlit("}}");
    assert("{{"@.len() == 2 && "}}"@.len() == 2);
    let p = placeholder(name);
    let q = placeholder(written);
    let t = a + q + b;
    assert(p[0] == '{' && p[1] == '{');
    assert forall|i: int| #[trigger] occurs_at(t, p, i) implies i == a.len() && written == name by {
        let sub = t.subrange(i, i + p.len());
        assert(sub == p);
        assert(sub[0] == t[i] && sub[1] == t[i + 1]);
        if i < a.len() {
            assert(a[i] == '{');
            assert(a.contains('{'));
        } else if i >= a.len() + q.len() {
            assert(b[i - a.len() - q.len()] == '{');
            assert(b.contains('{'));
        } else if i == a.len() {
            let m = if name.len() < written.len() {
                name.len() as int
            } else {
                written.len() as int
            };
            assert forall|k: int| 0 <= k < m implies name[k] == written[k] by {
                assert(p[k + 2] == name[k]);
                assert(sub[k + 2] == t[i + k + 2]);
                assert(t[i + k + 2] == q[k + 2]);
                assert(q[k + 2] == written[k]);
            }
            if name.len() < written.len() {
                assert(p[m + 2] == '}');
                assert(sub[m + 2] == t[i + m + 2]);
                assert(t[i + m + 2] == q[m + 2]);
                assert(written[m] == '}');
                assert(written.contains('}'));
            } else if written.len() < name.len() {
                assert(p[m + 2] == name[m]);
                assert(sub[m + 2] == t[i + m + 2]);
                assert(t[i + m + 2] == q[m + 2]);
                assert(q[m + 2] == '}');
                assert(name[m] == '}');
                assert(name.contains('}'));
            } else {
                assert(name =~= written);
            }
        } else {
            let k = i - a.len();
            assert(t[i] == q[k]);
            assert(t[i + 1] == '{');
            if k == 1 {
                if q.len() > 2 {
                    assert(t[i + 1] == q[2]);
                    if written.len() > 0 {
                        assert(q[2] == written[0]);
                        assert(written.contains('{'));
                    }
                }
            } else if k < 2 + written.len() {
                assert(q[k] == written[k - 2]);
                assert(written.contains('{'));
            } else {
                assert(q[k] == '}');
            }
        }
    }
    if written == name {
        assert(t.subrange(a.len() as int, (a.len() + p.len()) as int) =~= p);
        assert(occurs_at(t, p, a.len() as int));
        if let Some(v) = value_from(vars, name, 0) {
            lemma_find_from(t, p, 0);
            assert(find(t, p) == Some(a.len() as int));
            assert(t.take(a.len() as int) =~= a);
            assert(t.skip((a.len() + p.len()) as int) =~= b);
            if contains(b, p) {
                let i = choose|i: int| occurs_at(b, p, i);
                assert(b.subrange(i, i + p.len())[0] == b[i]);
                assert(b.contains('{'));
            }
            lemma_replace_none(b, p, v);
        }
    } else {
        if let Some(v) = value_from(vars, name, 0) {
            lemma_replace_none(t, p, v);
        }
    }
}

/// Where a template names one of the known variables, its value comes in that place and nothing else
/// changes: the first value that is given under the name.
pub proof fn law_variable_is_filled_in(
    a: Seq<char>,
    name: Seq<char>,
    b: Seq<char>,
    vars: Seq<(Seq<char>, Seq<char>)>,
    k: int,
)
    requires
        name == "CWD"@ || name == "OS"@ || name == "PROJECT_TYPE"@ || name == "TOOL_TODO"@,
        !a.contains('{'),
        !b.contains('{'),
        0 <= k < vars.len(),
        vars[k].0 == name,
        !vars[k].1.contains('{'),
        forall|j: int| 0 <= j < k ==> (#[trigger] vars[j]).0 != name,
    ensures
        rendered(a + ("{{"@ + name + "}}"@) + b, vars) == a + vars[k].1 + b,
{
    lemma_value_from(vars, name, 0, k);
    reveal_strlit("CWD");
    reveal_strlit("OS");
    reveal_strlit("PROJECT_TYPE");
    reveal_strlit("TOOL_TODO");
    assert("CWD"@.len() == 3 && "OS"@.len() == 2);
    assert("PROJECT_TYPE"@.len() == 12 && "TOOL_TODO"@.len() == 9);
    let t = a + placeholder(name) + b;
    lemma_one_place(a, name, b, vars, "CWD"@);
    lemma_one_place(a, name, b, vars, "OS"@);
    lemma_one_place(a, name, b, vars, "PROJECT_TYPE"@);
    lemma_one_place(a, name, b, vars, "TOOL_TODO"@);
    let done = a + vars[k].1 + b;
    assert(!done.contains('{')) by {
        if done.contains('{') {
            let i = choose|i: int| 0 <= i < done.len() && done[i] == '{';
            if i < a.len() {
                assert(a.contains(a[i]));
            } else if i < a.len() + vars[k].1.len() {
                assert(vars[k].1.contains(vars[k].1[i - a.len()]));
            } else {
                assert(b.contains(b[i - a.len() - vars[k].1.len()]));
            }
        }
    }
    lemma_no_brace(done, vars, "OS"@);
    lemma_no_brace(done, vars, "PROJECT_TYPE"@);
    lemma_no_brace(done, vars, "TOOL_TODO"@);
}

} // verus!
