//! Tools: what the model may call.
use vstd::prelude::*;
use vstd::string::*;
use crate::error::{ErrorView, Result};
use crate::json::{
    add_member, lemma_array, lemma_object, members, object1, text_json, trees, Json, JsonTree,
};
use crate::text::{same, views};

pub mod bash_exec;
pub mod file_edit;
pub mod file_read;
pub mod grep_search;
pub mod spawn_subagent;
pub mod todo_write;

verus! {

/// A shell and the arguments it gets before a command line.
#[derive(Debug)]
pub struct ShellCommand {
    pub command: String,
    pub args: Vec<String>,
}

/// How far an item of the to-do list is.
#[derive(Debug, Clone, Copy, PartialEq, Eq, Structural)]
pub enum TodoStatus {
    Pending,
    InProgress,
    Completed,
}

/// The name of a status.
pub open spec fn status_name(s: TodoStatus) -> Seq<char> {
    match s {
        TodoStatus::Pending => "pending"@,
        TodoStatus::InProgress => "in_progress"@,
        TodoStatus::Completed => "completed"@,
    }
}

/// The status that a name stands for.
pub open spec fn status_named(s: Seq<char>) -> Option<TodoStatus> {
    if s == "pending"@ {
        Some(TodoStatus::Pending)
    } else if s == "in_progress"@ {
        Some(TodoStatus::InProgress)
    } else if s == "completed"@ {
        Some(TodoStatus::Completed)
    } else {
        None
    }
}

/// The box drawn before an item.
pub open spec fn status_box(s: TodoStatus) -> char {
    match s {
        TodoStatus::Pending => '☐',
        TodoStatus::InProgress => '◐',
        TodoStatus::Completed => '☑',
    }
}

impl TodoStatus {
    /// The status that a name stands for.
    pub fn parse(s: &str) -> (r: Option<TodoStatus>)
        ensures
            r == status_named(s@),
    {
        if same(s, "pending") {
            Some(TodoStatus::Pending)
        } else if same(s, "in_progress") {
            Some(TodoStatus::InProgress)
        } else if same(s, "completed") {
            Some(TodoStatus::Completed)
        } else {
            None
        }
    }

    /// The name of the status.
    pub fn as_str(&self) -> (r: &'static str)
        ensures
            r@ == status_name(*self),
    {
        match self {
            TodoStatus::Pending => "pending",
            TodoStatus::InProgress => "in_progress",
            TodoStatus::Completed => "completed",
        }
    }

    /// The box drawn before an item.
    pub fn checkbox(&self) -> (r: char)
        ensures
            r == status_box(*self),
    {
        match self {
            TodoStatus::Pending => '☐',
            TodoStatus::InProgress => '◐',
            TodoStatus::Completed => '☑',
        }
    }
}

/// A status is read back from its own name, and no other name gives it.
pub proof fn law_status_name_round_trip(s: TodoStatus, name: Seq<char>)
    ensures
        status_named(status_name(s)) == Some(s),
        status_named(name) == Some(s) ==> name == status_name(s),
{
    reveal_strlit("pending");
    reveal_strlit("in_progress");
    reveal_strlit("completed");
    assert("pending"@.len() == 7 && "in_progress"@.len() == 11 && "completed"@.len() == 9);
}

/// One item of the to-do list.
#[derive(Debug)]
pub struct Todo {
    pub content: String,
    pub status: TodoStatus,
}

impl Clone for Todo {
    fn clone(&self) -> (r: Self)
        ensures
            r == *self,
    {
        Todo { content: self.content.clone(), status: self.status }
    }
}

/// What a to-do item holds.
#[verifier::ext_equal]
pub struct TodoView {
    pub content: Seq<char>,
    pub status: TodoStatus,
}

impl View for Todo {
    type V = TodoView;

    open spec fn view(&self) -> TodoView {
        TodoView { content: self.content@, status: self.status }
    }
}

/// The views of a to-do list.
pub open spec fn todo_views(v: Seq<Todo>) -> Seq<TodoView> {
    Seq::new(v.len(), |i: int| v[i]@)
}

/// A request for a child agent.
#[derive(Debug)]
pub struct SubagentRequest {
    pub task: String,
    pub allowed_tools: Vec<String>,
    /// What the parent hands on of its context.
    pub context: Option<String>,
    /// The child's limit on context tokens.
    pub context_budget: Option<u32>,
    /// Whether the child may ask for children of its own.
    pub allow_nested: bool,
}

/// What a tool is given besides its input.
#[derive(Debug)]
pub struct ToolContext {
    /// The directory that relative paths start from.
    pub cwd: String,
    /// The shell that commands run in, where it is not the platform's.
    pub shell: Option<ShellCommand>,
    /// The to-do list of the session.
    pub todos: Vec<Todo>,
    /// Whether a child agent may be asked for.
    pub can_spawn: bool,
}

// ---- input and schemas ----

/// The text under `key`, or how its absence is told.
pub open spec fn required_text(input: JsonTree, key: Seq<char>) -> core::result::Result<
    Seq<char>,
    ErrorView,
> {
    match input.text_of(key) {
        Some(s) => Ok(s),
        None => Err(ErrorView::Tool("参数 "@ + key + " 必须是字符串"@)),
    }
}

/// The description of a member: its type and what it is for.
pub open spec fn described_as(ty: Seq<char>, what: Seq<char>) -> JsonTree {
    JsonTree::Object(seq![("type"@, JsonTree::Text(ty)), ("description"@, JsonTree::Text(what))])
}

/// A list of texts.
pub open spec fn text_list(v: Seq<Seq<char>>) -> JsonTree {
    JsonTree::Array(v.map_values(|s: Seq<char>| JsonTree::Text(s)))
}

/// The schema of an object with these members, some of which it must have.
pub open spec fn object_schema(
    properties: Seq<(Seq<char>, JsonTree)>,
    required: Seq<Seq<char>>,
) -> JsonTree {
    JsonTree::Object(
        seq![
            ("type"@, JsonTree::Text("object"@)),
            ("properties"@, JsonTree::Object(properties)),
            ("required"@, text_list(required)),
        ],
    )
}

/// Describes a member.
pub fn describe_as(ty: &str, what: &str) -> (r: Json)
    ensures
        r.tree() == described_as(ty@, what@),
{
    let r = object1("type", text_json(ty));
    let r = add_member(r, "description", text_json(what));
    assert(r.tree()->Object_0 =~= described_as(ty@, what@)->Object_0);
    r
}

/// The views of a list of texts.
pub open spec fn str_views(v: Seq<&str>) -> Seq<Seq<char>> {
    Seq::new(v.len(), |i: int| v[i]@)
}

/// Makes a list of texts.
pub fn texts_json(v: &Vec<&str>) -> (r: Json)
    ensures
        r.tree() == text_list(str_views(v@)),
{
    let ghost want = str_views(v@).map_values(|s: Seq<char>| JsonTree::Text(s));
    let mut out: Vec<Json> = Vec::new();
    let mut i: usize = 0;
    while i < v.len()
        invariant
            i <= v@.len(),
            want == str_views(v@).map_values(|s: Seq<char>| JsonTree::Text(s)),
            trees(out@) == want.take(i as int),
        decreases v@.len() - i,
    {
        let one = text_json(v[i]);
        let ghost before = out@;
        out.push(one);
        assert(trees(out@) =~= trees(before).push(one.tree()));
        assert(want.take(i + 1) =~= want.take(i as int).push(want[i as int]));
        i = i + 1;
    }
    let r = Json::Array(out);
    proof {
        assert(want.take(i as int) =~= want);
        lemma_array(r);
    }
    r
}

/// Makes the schema of an object.
pub fn make_schema(properties: Vec<(String, Json)>, required: Vec<&str>) -> (r: Json)
    ensures
        r.tree() == object_schema(members(properties@), str_views(required@)),
{
    let req = texts_json(&required);
    let props = Json::Object(properties);
    proof {
        lemma_object(props);
    }
    let r = object1("type", text_json("object"));
    let r = add_member(r, "properties", props);
    let r = add_member(r, "required", req);
    assert(r.tree()->Object_0 =~= object_schema(
        members(properties@),
        str_views(required@),
    )->Object_0);
    r
}

/// What a tool tells the model, and how it may be run. Tools are open to users of the library: of
/// an implementation nothing is taken for granted.
pub trait Tool {
    fn name(&self) -> (r: &str);

    fn description(&self) -> (r: String);

    fn schema(&self) -> (r: Json);

    /// Whether the tool changes nothing.
    fn read_only(&self) -> (r: bool);

    /// Whether the tool may run beside the others of its batch; unless the tool says otherwise,
    /// where it changes nothing.
    fn parallel_safe(&self) -> (r: bool)
        default_ensures
            call_ensures(Self::read_only, (self,), r),
    {
        self.read_only()
    }
}

/// A tool as the registry keeps it.
#[derive(Debug)]
pub struct ToolInfo {
    pub name: String,
    pub description: String,
    pub input_schema: Json,
    pub read_only: bool,
    pub parallel_safe: bool,
}

/// What the registry knows of a tool.
#[verifier::ext_equal]
pub struct ToolView {
    pub name: Seq<char>,
    pub description: Seq<char>,
    pub input_schema: JsonTree,
    pub read_only: bool,
    pub parallel_safe: bool,
}

impl View for ToolInfo {
    type V = ToolView;

    open spec fn view(&self) -> ToolView {
        ToolView {
            name: self.name@,
            description: self.description@,
            input_schema: self.input_schema.tree(),
            read_only: self.read_only,
            parallel_safe: self.parallel_safe,
        }
    }
}

impl Clone for ToolInfo {
    fn clone(&self) -> (r: Self)
        ensures
            r@ == self@,
    {
        ToolInfo {
            name: self.name.clone(),
            description: self.description.clone(),
            input_schema: self.input_schema.clone(),
            read_only: self.read_only,
            parallel_safe: self.parallel_safe,
        }
    }
}

/// Asks a tool what the registry has to know of it.
pub fn tool_info<T: Tool>(t: &T) -> (r: ToolInfo)
    ensures
        exists|n: &str| #[trigger] call_ensures(T::name, (t,), n) && r.name@ == n@,
        call_ensures(T::description, (t,), r.description),
        call_ensures(T::schema, (t,), r.input_schema),
        call_ensures(T::read_only, (t,), r.read_only),
        call_ensures(T::parallel_safe, (t,), r.parallel_safe),
{
    ToolInfo {
        name: t.name().to_owned(),
        description: t.description(),
        input_schema: t.schema(),
        read_only: t.read_only(),
        parallel_safe: t.parallel_safe(),
    }
}

/// A tool as it is described to the model.
#[derive(Debug)]
pub struct ToolDefinition {
    pub name: String,
    pub description: String,
    pub input_schema: Json,
}

/// What a definition holds.
#[verifier::ext_equal]
pub struct DefinitionView {
    pub name: Seq<char>,
    pub description: Seq<char>,
    pub input_schema: JsonTree,
}

impl View for ToolDefinition {
    type V = DefinitionView;

    open spec fn view(&self) -> DefinitionView {
        DefinitionView {
            name: self.name@,
            description: self.description@,
            input_schema: self.input_schema.tree(),
        }
    }
}

/// The views of a list of definitions.
pub open spec fn definition_views(v: Seq<ToolDefinition>) -> Seq<DefinitionView> {
    Seq::new(v.len(), |i: int| v[i]@)
}

/// What the model is told of a tool.
pub open spec fn definition_of(t: ToolView) -> DefinitionView {
    DefinitionView { name: t.name, description: t.description, input_schema: t.input_schema }
}

/// A definition as stored: name, description, schema.
pub open spec fn stored_definition(d: DefinitionView) -> JsonTree {
    JsonTree::Object(
        seq![
            ("name"@, JsonTree::Text(d.name)),
            ("description"@, JsonTree::Text(d.description)),
            ("input_schema"@, d.input_schema),
        ],
    )
}

impl ToolDefinition {
    /// The definition as stored.
    pub fn to_json(&self) -> (r: Json)
        ensures
            r.tree() == stored_definition(self@),
    {
        let r = object1("name", text_json(self.name.as_str()));
        let r = add_member(r, "description", text_json(self.description.as_str()));
        let r = add_member(r, "input_schema", self.input_schema.clone());
        assert(r.tree()->Object_0 =~= stored_definition(self@)->Object_0);
        r
    }
}

impl Clone for ToolDefinition {
    fn clone(&self) -> (r: Self)
        ensures
            r@ == self@,
    {
        ToolDefinition {
            name: self.name.clone(),
            description: self.description.clone(),
            input_schema: self.input_schema.clone(),
        }
    }
}

/// The tools of a session, in the order in which they were added.
#[derive(Debug)]
pub struct ToolRegistry {
    tools: Vec<ToolInfo>,
}

/// The views of a list of tools.
pub open spec fn tool_views(v: Seq<ToolInfo>) -> Seq<ToolView> {
    Seq::new(v.len(), |i: int| v[i]@)
}

/// The first tool at or after `i` with this name.
pub open spec fn tool_from(tools: Seq<ToolView>, name: Seq<char>, i: int) -> Option<ToolView>
    decreases tools.len() - i,
{
    if i >= tools.len() {
        None
    } else if tools[i].name == name {
        Some(tools[i])
    } else {
        tool_from(tools, name, i + 1)
    }
}

/// The first tool with this name.
pub open spec fn tool_named(tools: Seq<ToolView>, name: Seq<char>) -> Option<ToolView> {
    tool_from(tools, name, 0)
}

/// The tools whose names are in `allowed`, in order.
pub open spec fn only_allowed(tools: Seq<ToolView>, allowed: Seq<Seq<char>>) -> Seq<ToolView>
    decreases tools.len(),
{
    if tools.len() == 0 {
        Seq::empty()
    } else if allowed.contains(tools.last().name) {
        only_allowed(tools.drop_last(), allowed).push(tools.last())
    } else {
        only_allowed(tools.drop_last(), allowed)
    }
}

/// Whether `name` is one of `list`.
pub fn listed(list: &Vec<String>, name: &str) -> (r: bool)
    ensures
        r == views(list@).contains(name@),
{
    let mut i: usize = 0;
    while i < list.len()
        invariant
            i <= list@.len(),
            forall|k: int| 0 <= k < i ==> views(list@)[k] != name@,
        decreases list@.len() - i,
    {
        if same(list[i].as_str(), name) {
            assert(views(list@)[i as int] == name@);
            return true;
        }
        assert(views(list@)[i as int] == list@[i as int]@);
        i = i + 1;
    }
    false
}

impl ToolRegistry {
    /// The tools, in order.
    pub closed spec fn tools(&self) -> Seq<ToolView> {
        tool_views(self.tools@)
    }

    /// A registry without tools.
    pub fn new() -> (r: ToolRegistry)
        ensures
            r.tools() == Seq::<ToolView>::empty(),
    {
        let r = ToolRegistry { tools: Vec::new() };
        assert(r.tools() =~= Seq::empty());
        r
    }

    /// Adds a tool at the end.
    pub fn register(&mut self, tool: ToolInfo)
        ensures
            final(self).tools() == old(self).tools().push(tool@),
    {
        self.tools.push(tool);
        assert(self.tools() =~= old(self).tools().push(tool@));
    }

    /// The first tool with this name.
    pub fn get(&self, name: &str) -> (r: Option<&ToolInfo>)
        ensures
            match r {
                Some(t) => tool_named(self.tools(), name@) == Some(t@),
                None => tool_named(self.tools(), name@) is None,
            },
    {
        let mut i: usize = 0;
        while i < self.tools.len()
            invariant
                i <= self.tools@.len(),
                tool_named(self.tools(), name@) == tool_from(self.tools(), name@, i as int),
            decreases self.tools@.len() - i,
        {
            if same(self.tools[i].name.as_str(), name) {
                return Some(&self.tools[i]);
            }
            i = i + 1;
        }
        None
    }

    /// The names of the tools, in order.
    pub fn names(&self) -> (r: Vec<String>)
        ensures
            views(r@) == self.tools().map_values(|t: ToolView| t.name),
    {
        let ghost want = self.tools().map_values(|t: ToolView| t.name);
        let mut r: Vec<String> = Vec::new();
        let mut i: usize = 0;
        while i < self.tools.len()
            invariant
                i <= self.tools@.len(),
                want == self.tools().map_values(|t: ToolView| t.name),
                views(r@) == want.take(i as int),
            decreases self.tools@.len() - i,
        {
            let one = self.tools[i].name.clone();
            let ghost before = r@;
            r.push(one);
            assert(views(r@) =~= views(before).push(one@));
            assert(want.take(i + 1) =~= want.take(i as int).push(want[i as int]));
            i = i + 1;
        }
        assert(want.take(i as int) =~= want);
        r
    }

    /// The tools whose names are in `allowed`, in order.
    pub fn subset(&self, allowed: &Vec<String>) -> (r: ToolRegistry)
        ensures
            r.tools() == only_allowed(self.tools(), views(allowed@)),
    {
        let ghost all = self.tools();
        let mut r = ToolRegistry::new();
        let mut i: usize = 0;
        assert(all.take(0) =~= Seq::empty());
        while i < self.tools.len()
            invariant
                i <= self.tools@.len(),
                all == self.tools(),
                all.len() == self.tools@.len(),
                r.tools() == only_allowed(all.take(i as int), views(allowed@)),
            decreases self.tools@.len() - i,
        {
            assert(all.take(i + 1).drop_last() =~= all.take(i as int));
            assert(all.take(i + 1).last() == self.tools@[i as int]@);
            if listed(allowed, self.tools[i].name.as_str()) {
                r.register(self.tools[i].clone());
            }
            i = i + 1;
        }
        assert(all.take(i as int) =~= all);
        r
    }

    /// What the model is told of the tools, in order.
    pub fn definitions(&self) -> (r: Vec<ToolDefinition>)
        ensures
            definition_views(r@) == self.tools().map_values(|t: ToolView| definition_of(t)),
    {
        let ghost want = self.tools().map_values(|t: ToolView| definition_of(t));
        let mut r: Vec<ToolDefinition> = Vec::new();
        let mut i: usize = 0;
        while i < self.tools.len()
            invariant
                i <= self.tools@.len(),
                want == self.tools().map_values(|t: ToolView| definition_of(t)),
                definition_views(r@) == want.take(i as int),
            decreases self.tools@.len() - i,
        {
            let t = &self.tools[i];
            let one = ToolDefinition {
                name: t.name.clone(),
                description: t.description.clone(),
                input_schema: t.input_schema.clone(),
            };
            let ghost before = r@;
            r.push(one);
            assert(definition_views(r@) =~= definition_views(before).push(one@));
            assert(want.take(i + 1) =~= want.take(i as int).push(want[i as int]));
            i = i + 1;
        }
        assert(want.take(i as int) =~= want);
        r
    }
}

impl Clone for ToolRegistry {
    fn clone(&self) -> (r: Self)
        ensures
            r.tools() == self.tools(),
    {
        let mut tools: Vec<ToolInfo> = Vec::new();
        let mut i: usize = 0;
        while i < self.tools.len()
            invariant
                i <= self.tools@.len(),
                tool_views(tools@) == tool_views(self.tools@).take(i as int),
            decreases self.tools@.len() - i,
        {
            let one = self.tools[i].clone();
            let ghost before = tools@;
            tools.push(one);
            assert(tool_views(tools@) =~= tool_views(before).push(one@));
            assert(tool_views(self.tools@).take(i + 1) =~= tool_views(self.tools@).take(
                i as int,
            ).push(self.tools@[i as int]@));
            i = i + 1;
        }
        assert(tool_views(self.tools@).take(i as int) =~= tool_views(self.tools@));
        ToolRegistry { tools }
    }
}

/// Where a registry is cut down to `allowed`, an allowed name finds the tool it found before, and
/// any other name finds none.
pub proof fn law_subset_finds_the_allowed(
    tools: Seq<ToolView>,
    allowed: Seq<Seq<char>>,
    name: Seq<char>,
)
    ensures
        tool_named(only_allowed(tools, allowed), name) == (if allowed.contains(name) {
            tool_named(tools, name)
        } else {
            None
        }),
    decreases tools.len(),
{
    if tools.len() > 0 {
        let front = tools.drop_last();
        law_subset_finds_the_allowed(front, allowed, name);
        lemma_tool_from_push(front, tools.last(), name, 0);
        assert(front.push(tools.last()) =~= tools);
        lemma_tool_from_push(only_allowed(front, allowed), tools.last(), name, 0);
    }
}

/// One more tool at the end is found only where none before it has the name.
proof fn lemma_tool_from_push(tools: Seq<ToolView>, t: ToolView, name: Seq<char>, i: int)
    requires
        0 <= i <= tools.len(),
    ensures
        tool_from(tools.push(t), name, i) == (match tool_from(tools, name, i) {
            Some(x) => Some(x),
            None => if t.name == name {
                Some(t)
            } else {
                None
            },
        }),
    decreases tools.len() - i,
{
    if i < tools.len() {
        lemma_tool_from_push(tools, t, name, i + 1);
    } else {
        assert(tool_from(tools.push(t), name, i + 1) is None);
    }
}

proof fn lemma_tool_from(tools: Seq<ToolView>, name: Seq<char>, i: int)
    requires
        0 <= i,
    ensures
        match tool_from(tools, name, i) {
            Some(t) => exists|k: int|
                i <= k < tools.len() && #[trigger] tools[k] == t && t.name == name && (forall|j: int|
                    i <= j < k ==> (#[trigger] tools[j]).name != name),
            None => forall|j: int| i <= j < tools.len() ==> (#[trigger] tools[j]).name != name,
        },
    decreases tools.len() - i,
{
    if i < tools.len() && tools[i].name != name {
        lemma_tool_from(tools, name, i + 1);
        if let Some(t) = tool_from(tools, name, i + 1) {
            let k = choose|k: int|
                i + 1 <= k < tools.len() && #[trigger] tools[k] == t && t.name == name && (forall|
                    j: int,
                |
                    i + 1 <= j < k ==> (#[trigger] tools[j]).name != name);
            assert(tools[k] == t);
        }
    }
}

/// A tool is found by its name: the first that has it, and none only where none has it.
pub proof fn law_tool_is_found_by_name(tools: Seq<ToolView>, name: Seq<char>)
    ensures
        match tool_named(tools, name) {
            Some(t) => exists|k: int|
                0 <= k < tools.len() && #[trigger] tools[k] == t && t.name == name && (forall|j: int|
                    0 <= j < k ==> (#[trigger] tools[j]).name != name),
            None => forall|j: int| 0 <= j < tools.len() ==> (#[trigger] tools[j]).name != name,
        },
{
    lemma_tool_from(tools, name, 0);
}

/// A subset of tools has those whose names are allowed, all of them, in their order and nothing else.
pub proof fn law_subset_is_a_filter(tools: Seq<ToolView>, allowed: Seq<Seq<char>>)
    ensures
        only_allowed(tools, allowed) == tools.filter(|t: ToolView| allowed.contains(t.name)),
    decreases tools.len(),
{
    reveal(Seq::filter);
    if tools.len() > 0 {
        law_subset_is_a_filter(tools.drop_last(), allowed);
    }
}


/// A text that a tool needs is the member of that name, where it is a text; and where it is not, the
/// call fails and says which.
pub proof fn law_texts_are_required(input: JsonTree, key: Seq<char>, t: Seq<char>)
    ensures
        input.get(key) == Some(JsonTree::Text(t)) ==> required_text(input, key) == Ok::<
            Seq<char>,
            ErrorView,
        >(t),
        !(input.get(key) matches Some(m) && m is Text) ==> required_text(input, key) == Err::<
            Seq<char>,
            ErrorView,
        >(ErrorView::Tool("参数 "@ + key + " 必须是字符串"@)),
{
}

} // verus!
