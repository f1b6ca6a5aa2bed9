//! The to-do list of a session.
use vstd::prelude::*;
use vstd::string::*;
use crate::error::{ErrorView, LexError, Result};
use crate::json::{add_member, members, object1, text_json, trees, Json, JsonTree};
use crate::text::{
    all_white, blank, cat3, cat5, dec, dec_text, join, join_texts, lemma_trim_empty, trim, views,
};
use crate::tools::{
    make_schema, object_schema, status_box, status_name, status_named, str_views, text_list,
    texts_json, todo_views, Todo, TodoStatus, TodoView, Tool,
};

verus! {

/// Replaces the to-do list as a whole. Only the session's own state changes, so the tool counts as
/// one that changes nothing.
#[derive(Debug)]
pub struct TodoWrite;

/// An item as it is shown: its box, its status and what is to be done.
pub open spec fn todo_line(t: TodoView) -> Seq<char> {
    seq![status_box(t.status)] + " ["@ + status_name(t.status) + "] "@ + t.content
}

/// A list as it is shown.
pub open spec fn todo_text(ts: Seq<TodoView>) -> Seq<char> {
    if ts.len() == 0 {
        "(待办清单已清空)"@
    } else {
        join(ts.map_values(|t: TodoView| todo_line(t)), "\n"@)
    }
}

/// Shows a list.
pub fn format_todos(todos: &Vec<Todo>) -> (r: String)
    ensures
        r@ == todo_text(todo_views(todos@)),
{
    if todos.len() == 0 {
        return "(待办清单已清空)".to_owned();
    }
    let ghost want = todo_views(todos@).map_values(|t: TodoView| todo_line(t));
    let mut out: Vec<String> = Vec::new();
    let mut i: usize = 0;
    while i < todos.len()
        invariant
            i <= todos@.len(),
            want == todo_views(todos@).map_values(|t: TodoView| todo_line(t)),
            views(out@) == want.take(i as int),
        decreases todos@.len() - i,
    {
        let t = &todos[i];
        let mut mark = String::new();
        mark.push(t.status.checkbox());
        assert(mark@ =~= seq![status_box(t.status)]);
        let one = cat5(mark.as_str(), " [", t.status.as_str(), "] ", t.content.as_str());
        let ghost before = out@;
        out.push(one);
        assert(views(out@) =~= views(before).push(one@));
        assert(want.take(i + 1) =~= want.take(i as int).push(want[i as int]));
        i = i + 1;
    }
    assert(want.take(i as int) =~= want);
    join_texts(&out, "\n")
}

/// One item of the input, or what is wrong with it: it needs something to do, and a status that
/// there is.
pub open spec fn read_item(item: JsonTree, i: int) -> core::result::Result<TodoView, ErrorView> {
    let content = item.text_of("content"@);
    let status = item.text_of("status"@);
    if content is None || trim(content->0).len() == 0 {
        Err(ErrorView::Tool("todos["@ + dec(i as nat) + "] 缺少非空 content"@))
    } else if status is None {
        Err(
            ErrorView::Tool(
                "todos["@ + dec(i as nat) + "] 缺少 status(pending/in_progress/completed)"@,
            ),
        )
    } else if status_named(status->0) is None {
        Err(
            ErrorView::Tool(
                "todos["@ + dec(i as nat) + "] status \""@ + status->0
                    + "\" 无效:只支持 pending/in_progress/completed"@,
            ),
        )
    } else {
        Ok(TodoView { content: content->0, status: status_named(status->0)->0 })
    }
}

/// The items of the input, or what is wrong with the first that cannot be read.
pub open spec fn read_items(items: Seq<JsonTree>) -> core::result::Result<Seq<TodoView>, ErrorView>
    decreases items.len(),
{
    if items.len() == 0 {
        Ok(Seq::empty())
    } else {
        match read_items(items.drop_last()) {
            Ok(ts) => match read_item(items.last(), items.len() - 1) {
                Ok(t) => Ok(ts.push(t)),
                Err(e) => Err(e),
            },
            Err(e) => Err(e),
        }
    }
}

/// The list that the input gives, or what is wrong with it.
pub open spec fn read_todos(input: JsonTree) -> core::result::Result<Seq<TodoView>, ErrorView> {
    match input.get("todos"@) {
        Some(t) => match t.as_items() {
            Some(a) => read_items(a),
            None => Err(ErrorView::Tool("todo_write 缺少必填参数 \"todos\"(数组)"@)),
        },
        None => Err(ErrorView::Tool("todo_write 缺少必填参数 \"todos\"(数组)"@)),
    }
}

fn take_item(item: &Json, i: usize) -> (r: Result<Todo>)
    ensures
        match r {
            Ok(t) => read_item(item.tree(), i as int) == Ok::<TodoView, ErrorView>(t@),
            Err(e) => read_item(item.tree(), i as int) == Err::<TodoView, ErrorView>(e@),
        },
{
    let n = dec_text(i as u64);
    let content = match item.text_of("content") {
        Some(c) => c,
        None => {
            return Err(LexError::Tool(cat3("todos[", n.as_str(), "] 缺少非空 content")));
        },
    };
    if blank(content) {
        return Err(LexError::Tool(cat3("todos[", n.as_str(), "] 缺少非空 content")));
    }
    let raw = match item.text_of("status") {
        Some(s) => s,
        None => {
            return Err(
                LexError::Tool(
                    cat3("todos[", n.as_str(), "] 缺少 status(pending/in_progress/completed)"),
                ),
            );
        },
    };
    match TodoStatus::parse(raw) {
        Some(status) => Ok(Todo { content: content.to_owned(), status }),
        None => Err(
            LexError::Tool(
                cat5(
                    "todos[",
                    n.as_str(),
                    "] status \"",
                    raw,
                    "\" 无效:只支持 pending/in_progress/completed",
                ),
            ),
        ),
    }
}

/// Reads the list that the input gives.
pub fn parse_todos(input: &Json) -> (r: Result<Vec<Todo>>)
    ensures
        match r {
            Ok(v) => read_todos(input.tree()) == Ok::<Seq<TodoView>, ErrorView>(todo_views(v@)),
            Err(e) => read_todos(input.tree()) == Err::<Seq<TodoView>, ErrorView>(e@),
        },
{
    let arr = match input.get("todos") {
        Some(t) => match t.as_array() {
            Some(a) => a,
            None => {
                return Err(LexError::Tool("todo_write 缺少必填参数 \"todos\"(数组)".to_owned()));
            },
        },
        None => {
            return Err(LexError::Tool("todo_write 缺少必填参数 \"todos\"(数组)".to_owned()));
        },
    };
    let ghost all = trees(arr@);
    let mut todos: Vec<Todo> = Vec::new();
    let mut i: usize = 0;
    assert(all.take(0) =~= Seq::empty());
    assert(todo_views(todos@) =~= Seq::empty());
    while i < arr.len()
        invariant
            i <= arr@.len(),
            all == trees(arr@),
            read_todos(input.tree()) == read_items(all),
            read_items(all.take(i as int)) == Ok::<Seq<TodoView>, ErrorView>(todo_views(todos@)),
        decreases arr@.len() - i,
    {
        proof {
            assert(all.take(i + 1).drop_last() =~= all.take(i as int));
            assert(all.take(i + 1).last() == arr@[i as int].tree());
        }
        match take_item(&arr[i], i) {
            Ok(t) => {
                let ghost before = todos@;
                todos.push(t);
                assert(todo_views(todos@) =~= todo_views(before).push(t@));
            },
            Err(e) => {
                proof {
                    lemma_first_fault(all, i + 1);
                }
                return Err(e);
            },
        }
        i = i + 1;
    }
    assert(all.take(i as int) =~= all);
    Ok(todos)
}

/// A fault among the first items is the fault of all.
proof fn lemma_first_fault(items: Seq<JsonTree>, n: int)
    requires
        0 <= n <= items.len(),
        read_items(items.take(n)) is Err,
    ensures
        read_items(items) == read_items(items.take(n)),
    decreases items.len(),
{
    if n < items.len() {
        assert(items.drop_last().take(n) =~= items.take(n));
        lemma_first_fault(items.drop_last(), n);
    } else {
        assert(items.take(n) =~= items);
    }
}

impl TodoWrite {
    /// Replaces the list as a whole and shows it; an input that cannot be read changes nothing.
    pub fn execute(&self, input: &Json, todos: &mut Vec<Todo>) -> (r: Result<String>)
        ensures
            match read_todos(input.tree()) {
                Ok(ts) => {
                    &&& r matches Ok(s) && s@ == todo_text(ts)
                    &&& todo_views(final(todos)@) == ts
                },
                Err(e) => (r matches Err(x) && x@ == e) && *final(todos) == *old(todos),
            },
    {
        match parse_todos(input) {
            Ok(v) => {
                *todos = v;
                Ok(format_todos(todos))
            },
            Err(e) => Err(e),
        }
    }
}

/// What an item of the input looks like.
pub open spec fn item_schema() -> JsonTree {
    JsonTree::Object(
        seq![
            ("type"@, JsonTree::Text("object"@)),
            (
                "properties"@,
                JsonTree::Object(
                    seq![
                        ("content"@, JsonTree::Object(seq![("type"@, JsonTree::Text("string"@))])),
                        (
                            "status"@,
                            JsonTree::Object(
                                seq![
                                    ("type"@, JsonTree::Text("string"@)),
                                    (
                                        "enum"@,
                                        text_list(
                                            seq!["pending"@, "in_progress"@, "completed"@],
                                        ),
                                    ),
                                ],
                            ),
                        ),
                    ],
                ),
            ),
            ("required"@, text_list(seq!["content"@, "status"@])),
        ],
    )
}

/// What the input of the tool looks like.
pub open spec fn todo_schema() -> JsonTree {
    object_schema(
        seq![
            (
                "todos"@,
                JsonTree::Object(
                    seq![
                        ("type"@, JsonTree::Text("array"@)),
                        ("description"@, JsonTree::Text("完整的新待办列表"@)),
                        ("items"@, item_schema()),
                    ],
                ),
            ),
        ],
        seq!["todos"@],
    )
}

fn item_json() -> (r: Json)
    ensures
        r.tree() == item_schema(),
{
    let content = object1("type", text_json("string"));
    let mut names: Vec<&str> = Vec::new();
    names.push("pending");
    names.push("in_progress");
    names.push("completed");
    assert(str_views(names@) =~= seq!["pending"@, "in_progress"@, "completed"@]);
    let status = object1("type", text_json("string"));
    let status = add_member(status, "enum", texts_json(&names));
    let props = object1("content", content);
    let props = add_member(props, "status", status);
    let mut req: Vec<&str> = Vec::new();
    req.push("content");
    req.push("status");
    assert(str_views(req@) =~= seq!["content"@, "status"@]);
    let r = object1("type", text_json("object"));
    let r = add_member(r, "properties", props);
    let r = add_member(r, "required", texts_json(&req));
    proof {
        let want = item_schema()->Object_0;
        let p = want[1].1->Object_0;
        assert(status.tree()->Object_0 =~= p[1].1->Object_0);
        assert(props.tree()->Object_0 =~= p);
        assert(r.tree()->Object_0 =~= want);
    }
    r
}

/// What the model is told of the tool.
pub const DESCRIPTION: &'static str =
    "更新当前任务的待办清单(整体替换)。任务涉及多个步骤时应先用它列计划,完成后逐项标记状态。参数:todos 数组,每项含 content(待办内容)与 status(pending / in_progress / completed)";

impl Tool for TodoWrite {
    fn name(&self) -> (r: &str)
        ensures
            r@ == "todo_write"@,
    {
        "todo_write"
    }

    fn description(&self) -> (r: String)
        ensures
            r@ == DESCRIPTION@,
    {
        DESCRIPTION.to_owned()
    }

    fn schema(&self) -> (r: Json)
        ensures
            r.tree() == todo_schema(),
    {
        let list = object1("type", text_json("array"));
        let list = add_member(list, "description", text_json("完整的新待办列表"));
        let list = add_member(list, "items", item_json());
        let mut p: Vec<(String, Json)> = Vec::new();
        p.push(("todos".to_owned(), list));
        let mut q: Vec<&str> = Vec::new();
        q.push("todos");
        proof {
            let want = seq![
                ("type"@, JsonTree::Text("array"@)),
                ("description"@, JsonTree::Text("完整的新待办列表"@)),
                ("items"@, item_schema()),
            ];
            assert(list.tree()->Object_0 =~= want);
            assert(members(p@) =~= seq![("todos"@, JsonTree::Object(want))]);
            assert(str_views(q@) =~= seq!["todos"@]);
        }
        make_schema(p, q)
    }

    fn read_only(&self) -> (r: bool)
        ensures
            r,
    {
        true
    }
}

/// Whether an item can be read: it has something to do, and one of the three statuses.
pub open spec fn is_item(item: JsonTree) -> bool {
    &&& item.text_of("content"@) is Some
    &&& !all_white(item.text_of("content"@)->0)
    &&& item.text_of("status"@) is Some
    &&& item.text_of("status"@)->0 == "pending"@ || item.text_of("status"@)->0 == "in_progress"@
        || item.text_of("status"@)->0 == "completed"@
}

proof fn lemma_read_item(item: JsonTree, i: int)
    ensures
        read_item(item, i) is Ok <==> is_item(item),
        read_item(item, i) matches Ok(t) ==> {
            &&& t.content == item.text_of("content"@)->0
            &&& t.status == TodoStatus::Pending <==> item.text_of("status"@)->0 == "pending"@
            &&& t.status == TodoStatus::InProgress <==> item.text_of("status"@)->0
                == "in_progress"@
            &&& t.status == TodoStatus::Completed <==> item.text_of("status"@)->0 == "completed"@
        },
{
    reveal_strlit("pending");
    reveal_strlit("in_progress");
    reveal_strlit("completed");
    assert("pending"@.len() == 7 && "in_progress"@.len() == 11 && "completed"@.len() == 9);
    if item.text_of("content"@) is Some {
        lemma_trim_empty(item.text_of("content"@)->0);
    }
}

proof fn lemma_read_items(items: Seq<JsonTree>)
    ensures
        read_items(items) is Ok <==> forall|k: int|
            0 <= k < items.len() ==> is_item(#[trigger] items[k]),
        read_items(items) matches Ok(ts) ==> {
            &&& ts.len() == items.len()
            &&& forall|k: int|
                0 <= k < items.len() ==> read_item(#[trigger] items[k], k) == Ok::<
                    TodoView,
                    ErrorView,
                >(ts[k])
        },
    decreases items.len(),
{
    if items.len() > 0 {
        let front = items.drop_last();
        let n = items.len() - 1;
        lemma_read_items(front);
        lemma_read_item(items.last(), n);
        assert(items[n] == items.last());
        if read_items(front) is Ok {
            assert forall|k: int| 0 <= k < n implies is_item(#[trigger] items[k]) by {
                assert(front[k] == items[k]);
            }
            if let Ok(ts) = read_items(items) {
                assert forall|k: int| 0 <= k < items.len() implies read_item(
                    #[trigger] items[k],
                    k,
                ) == Ok::<TodoView, ErrorView>(ts[k]) by {
                    if k < n {
                        assert(front[k] == items[k]);
                    }
                }
            }
        } else {
            let k = choose|k: int| 0 <= k < front.len() && !is_item(#[trigger] front[k]);
            assert(!is_item(items[k]));
        }
    }
}

/// A list is taken exactly where it is an array in which every item says what is to be done and has
/// one of the three statuses; and then it is taken whole, item by item, in order, with what each
/// says and the status it names.
pub proof fn law_list_is_taken_whole(input: JsonTree)
    ensures
        match input.get("todos"@) {
            Some(JsonTree::Array(items)) => {
                &&& read_todos(input) is Ok <==> forall|k: int|
                    0 <= k < items.len() ==> is_item(#[trigger] items[k])
                &&& read_todos(input) matches Ok(ts) ==> {
                    &&& ts.len() == items.len()
                    &&& forall|k: int|
                        0 <= k < items.len() ==> {
                            let t = #[trigger] ts[k];
                            let s = items[k].text_of("status"@)->0;
                            &&& t.content == items[k].text_of("content"@)->0
                            &&& t.status == TodoStatus::Pending <==> s == "pending"@
                            &&& t.status == TodoStatus::InProgress <==> s == "in_progress"@
                            &&& t.status == TodoStatus::Completed <==> s == "completed"@
                        }
                }
            },
            _ => read_todos(input) is Err,
        },
{
    if let Some(JsonTree::Array(items)) = input.get("todos"@) {
        lemma_read_items(items);
        if let Ok(ts) = read_todos(input) {
            assert forall|k: int| 0 <= k < items.len() implies ({
                let t = #[trigger] ts[k];
                let s = items[k].text_of("status"@)->0;
                &&& t.content == items[k].text_of("content"@)->0
                &&& t.status == TodoStatus::Pending <==> s == "pending"@
                &&& t.status == TodoStatus::InProgress <==> s == "in_progress"@
                &&& t.status == TodoStatus::Completed <==> s == "completed"@
            }) by {
                assert(is_item(items[k]));
                lemma_read_item(items[k], k);
            }
        }
    }
}

/// Every item of a list is shown on a line of its own, in order, with its box, its status and what
/// it says.
pub proof fn law_list_is_shown_whole(ts: Seq<TodoView>, k: int)
    requires
        0 <= k < ts.len(),
    ensures
        exists|ls: Seq<Seq<char>>|
            {
                &&& todo_text(ts) == #[trigger] join(ls, "\n"@)
                &&& ls.len() == ts.len()
                &&& ls[k] == (match ts[k].status {
                    TodoStatus::Pending => seq!['☐'] + " ["@ + "pending"@,
                    TodoStatus::InProgress => seq!['◐'] + " ["@ + "in_progress"@,
                    TodoStatus::Completed => seq!['☑'] + " ["@ + "completed"@,
                }) + "] "@ + ts[k].content
            },
{
    let ls = ts.map_values(|t: TodoView| todo_line(t));
    assert(todo_text(ts) == join(ls, "\n"@));
}

} // verus!
