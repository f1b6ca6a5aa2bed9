//! Saving settings into the configuration file, which the `toml` crate reads and writes. What the
//! file holds beyond the settings stays in it, but for comments.
use vstd::prelude::*;
use vstd::string::*;
use crate::config::{Config, ConfigView};
use crate::text::{cat2, clone_texts, opt_text, views};

verus! {

// ---- values and tables of `toml` ----

/// `toml`'s table.
#[verifier::external_type_specification]
#[verifier::external_body]
#[verifier::reject_recursive_types(K)]
#[verifier::reject_recursive_types(V)]
pub struct ExTable<K, V>(toml::map::Map<K, V>);

/// `toml`'s value.
#[verifier::external_type_specification]
#[verifier::external_body]
pub struct ExTomlValue(toml::Value);

/// What a value of a TOML file is.
pub enum TomlTree {
    Text(Seq<char>),
    Integer(i64),
    Boolean(bool),
    Array(Seq<TomlTree>),
    Table(Map<Seq<char>, TomlTree>),
    /// A float or a point in time, by its text.
    Other(Seq<char>),
}

/// The entries of a table.
pub uninterp spec fn entries(t: toml::Table) -> Map<Seq<char>, TomlTree>;

/// What a `toml::Value` is.
pub uninterp spec fn value_tree(v: toml::Value) -> TomlTree;

/// The table that `toml::from_str` makes of a text; nothing where it refuses the text.
pub uninterp spec fn toml_read(text: Seq<char>) -> Option<Map<Seq<char>, TomlTree>>;

/// What `toml::to_string_pretty` makes of a table: the text, or the message of its error.
pub uninterp spec fn toml_pretty(t: Map<Seq<char>, TomlTree>) -> Result<Seq<char>, Seq<char>>;

/// `toml::from_str` into a `toml::Table`. The outcome is a function of the text alone; of an error
/// nothing is kept.
#[verifier::external_body]
fn table_from_str(text: &str) -> (r: Option<toml::Table>)
    ensures
        match r {
            Some(t) => toml_read(text@) == Some(entries(t)),
            None => toml_read(text@) is None,
        },
{
    toml::from_str::<toml::Table>(text).ok()
}

/// No entries.
pub open spec fn no_entries() -> Map<Seq<char>, TomlTree> {
    Map::empty()
}

/// `toml::Table::new`: a table without entries.
#[verifier::external_body]
fn new_table() -> (r: toml::Table)
    ensures
        entries(r) == no_entries(),
{
    toml::Table::new()
}

/// `toml::Table::insert`: the entry under the key is the value, whatever it was; the others stay.
#[verifier::external_body]
fn insert(t: &mut toml::Table, key: &str, value: toml::Value)
    ensures
        entries(*final(t)) == entries(*old(t)).insert(key@, value_tree(value)),
{
    t.insert(key.to_owned(), value);
}

/// `toml::Table::remove`: there is no entry under the key; the others stay.
#[verifier::external_body]
fn remove(t: &mut toml::Table, key: &str)
    ensures
        entries(*final(t)) == entries(*old(t)).remove(key@),
{
    t.remove(key);
}

/// `toml::Table::get` and `toml::Value::as_table`: whether there is an entry under the key, and
/// where it is a table, a copy of that.
#[verifier::external_body]
fn get_table(t: &toml::Table, key: &str) -> (r: Option<Option<toml::Table>>)
    ensures
        match r {
            Some(Some(s)) => entries(*t).contains_key(key@) && entries(*t)[key@]
                == TomlTree::Table(entries(s)),
            Some(None) => entries(*t).contains_key(key@) && !(entries(*t)[key@] is Table),
            None => !entries(*t).contains_key(key@),
        },
{
    t.get(key).map(|v| v.as_table().cloned())
}

/// A table as a `toml::Value`.
#[verifier::external_body]
fn table_value(t: toml::Table) -> (r: toml::Value)
    ensures
        value_tree(r) == TomlTree::Table(entries(t)),
{
    toml::Value::Table(t)
}

/// The value of a setting.
#[derive(Debug)]
pub enum Setting {
    Text(String),
    Integer(i64),
    Boolean(bool),
    Texts(Vec<String>),
}

/// What a setting is in the file.
pub open spec fn setting_tree(s: Setting) -> TomlTree {
    match s {
        Setting::Text(t) => TomlTree::Text(t@),
        Setting::Integer(n) => TomlTree::Integer(n),
        Setting::Boolean(b) => TomlTree::Boolean(b),
        Setting::Texts(v) => text_array(views(v@)),
    }
}

/// A list of texts in the file.
pub open spec fn text_array(v: Seq<Seq<char>>) -> TomlTree {
    TomlTree::Array(v.map_values(|s: Seq<char>| TomlTree::Text(s)))
}

/// A setting as a `toml::Value`, variant by variant.
#[verifier::external_body]
fn setting_value(s: Setting) -> (r: toml::Value)
    ensures
        value_tree(r) == setting_tree(s),
{
    match s {
        Setting::Text(t) => toml::Value::String(t),
        Setting::Integer(n) => toml::Value::Integer(n),
        Setting::Boolean(b) => toml::Value::Boolean(b),
        Setting::Texts(v) => toml::Value::Array(v.into_iter().map(toml::Value::String).collect()),
    }
}

/// `toml::to_string_pretty` on a table. The outcome is a function of its entries, which the table
/// keeps in the order of their keys; an error is handed on as its message.
#[verifier::external_body]
fn pretty(t: &toml::Table) -> (r: Result<String, String>)
    ensures
        match r {
            Ok(s) => toml_pretty(entries(*t)) == Ok::<Seq<char>, Seq<char>>(s@),
            Err(m) => toml_pretty(entries(*t)) == Err::<Seq<char>, Seq<char>>(m@),
        },
{
    toml::to_string_pretty(t).map_err(|e| e.to_string())
}

// ---- the settings in a table ----

/// The section under `key`, or an empty one.
pub open spec fn section(t: Map<Seq<char>, TomlTree>, key: Seq<char>) -> Map<Seq<char>, TomlTree> {
    if t.contains_key(key) && t[key] is Table {
        t[key]->Table_0
    } else {
        Map::empty()
    }
}

/// A table with another section under `key`.
pub open spec fn with_section(
    t: Map<Seq<char>, TomlTree>,
    key: Seq<char>,
    s: Map<Seq<char>, TomlTree>,
) -> Map<Seq<char>, TomlTree> {
    t.insert(key, TomlTree::Table(s))
}

/// A section with a text under `key`, or with nothing there.
pub open spec fn with_text(
    s: Map<Seq<char>, TomlTree>,
    key: Seq<char>,
    v: Option<Seq<char>>,
) -> Map<Seq<char>, TomlTree> {
    match v {
        Some(t) => s.insert(key, TomlTree::Text(t)),
        None => s.remove(key),
    }
}

/// The section of the Anthropic service.
pub open spec fn anthropic_section(s: Map<Seq<char>, TomlTree>, c: ConfigView) -> Map<
    Seq<char>,
    TomlTree,
> {
    s.insert("base_url"@, TomlTree::Text(c.anthropic.base_url)).insert(
        "model"@,
        TomlTree::Text(c.anthropic.model),
    ).insert("max_tokens"@, TomlTree::Integer(c.anthropic.max_tokens as i64))
}

/// The section of the OpenAI service. What is not set is taken out.
pub open spec fn openai_section(s: Map<Seq<char>, TomlTree>, c: ConfigView) -> Map<
    Seq<char>,
    TomlTree,
> {
    let a = s.insert("base_url"@, TomlTree::Text(c.openai.base_url)).insert(
        "model"@,
        TomlTree::Text(c.openai.model),
    );
    let b = match c.openai.max_tokens {
        Some(n) => a.insert("max_tokens"@, TomlTree::Integer(n as i64)),
        None => a.remove("max_tokens"@),
    };
    with_text(
        with_text(b, "thinking"@, c.openai.thinking),
        "reasoning_effort"@,
        c.openai.reasoning_effort,
    )
}

/// The section of the rules.
pub open spec fn security_section(s: Map<Seq<char>, TomlTree>, c: ConfigView) -> Map<
    Seq<char>,
    TomlTree,
> {
    s.insert("forbidden"@, text_array(c.security.forbidden)).insert(
        "confirm"@,
        text_array(c.security.confirm),
    ).insert("auto"@, text_array(c.security.auto))
}

/// The section of the context.
pub open spec fn context_section(s: Map<Seq<char>, TomlTree>, c: ConfigView) -> Map<
    Seq<char>,
    TomlTree,
> {
    s.insert("limit"@, TomlTree::Integer(c.context.limit as i64)).insert(
        "enabled"@,
        TomlTree::Boolean(c.context.enabled),
    )
}

/// A table with the settings of a configuration.
pub open spec fn with_settings(t: Map<Seq<char>, TomlTree>, c: ConfigView) -> Map<
    Seq<char>,
    TomlTree,
> {
    let p = t.insert("provider"@, TomlTree::Text(c.provider));
    let a = with_section(p, "anthropic"@, anthropic_section(section(p, "anthropic"@), c));
    let o = with_section(a, "openai"@, openai_section(section(a, "openai"@), c));
    let s = with_section(o, "security"@, security_section(section(o, "security"@), c));
    with_section(s, "context"@, context_section(section(s, "context"@), c))
}

/// The table that a file holds: an empty one where there is no file, or where it is not TOML.
pub open spec fn file_table(file: Option<Seq<char>>) -> Map<Seq<char>, TomlTree> {
    match file {
        Some(text) => match toml_read(text) {
            Some(t) => t,
            None => Map::empty(),
        },
        None => Map::empty(),
    }
}

/// Whether what stands under `key`, where anything does, is a section.
pub open spec fn section_or_none(t: Map<Seq<char>, TomlTree>, key: Seq<char>) -> bool {
    t.contains_key(key) ==> t[key] is Table
}

/// Whether nothing stands where a section belongs.
pub open spec fn sections_free(t: Map<Seq<char>, TomlTree>) -> bool {
    &&& section_or_none(t, "anthropic"@)
    &&& section_or_none(t, "openai"@)
    &&& section_or_none(t, "security"@)
    &&& section_or_none(t, "context"@)
}

/// The file with the settings of a configuration in it: its text, or why it cannot be written.
pub open spec fn saved(file: Option<Seq<char>>, c: ConfigView) -> Result<Seq<char>, Seq<char>> {
    match toml_pretty(with_settings(file_table(file), c)) {
        Ok(s) => Ok(s),
        Err(m) => Err("序列化失败: "@ + m),
    }
}

/// A text under a view, as an optional argument.
pub open spec fn file_view(file: Option<&str>) -> Option<Seq<char>> {
    match file {
        Some(s) => Some(s@),
        None => None,
    }
}

fn read_table(file: Option<&str>) -> (r: toml::Table)
    ensures
        entries(r) == file_table(file_view(file)),
{
    match file {
        Some(text) => match table_from_str(text) {
            Some(t) => t,
            None => new_table(),
        },
        None => new_table(),
    }
}

fn section_free(t: &toml::Table, key: &str) -> (r: bool)
    ensures
        r == section_or_none(entries(*t), key@),
{
    match get_table(t, key) {
        Some(None) => false,
        _ => true,
    }
}

fn read_section(t: &toml::Table, key: &str) -> (r: toml::Table)
    ensures
        entries(r) == section(entries(*t), key@),
{
    match get_table(t, key) {
        Some(Some(s)) => s,
        _ => new_table(),
    }
}

fn insert_text(t: &mut toml::Table, key: &str, s: &str)
    ensures
        entries(*final(t)) == entries(*old(t)).insert(key@, TomlTree::Text(s@)),
{
    let value = setting_value(Setting::Text(s.to_owned()));
    insert(t, key, value);
}

fn insert_integer(t: &mut toml::Table, key: &str, n: u32)
    ensures
        entries(*final(t)) == entries(*old(t)).insert(key@, TomlTree::Integer(n as i64)),
{
    let value = setting_value(Setting::Integer(n as i64));
    insert(t, key, value);
}

fn insert_texts(t: &mut toml::Table, key: &str, v: &Vec<String>)
    ensures
        entries(*final(t)) == entries(*old(t)).insert(key@, text_array(views(v@))),
{
    let value = setting_value(Setting::Texts(clone_texts(v)));
    insert(t, key, value);
}

fn insert_or_remove(t: &mut toml::Table, key: &str, v: &Option<String>)
    ensures
        entries(*final(t)) == with_text(entries(*old(t)), key@, opt_text(*v)),
{
    match v {
        Some(s) => insert_text(t, key, s.as_str()),
        None => remove(t, key),
    }
}

fn put_section(t: &mut toml::Table, key: &str, s: toml::Table)
    ensures
        entries(*final(t)) == with_section(entries(*old(t)), key@, entries(s)),
{
    let value = table_value(s);
    insert(t, key, value);
}

/// The text of the file with the settings of a configuration in it, or why it cannot be written.
/// A file that is missing or is not TOML counts as empty.
pub fn write_back(file: Option<&str>, cfg: &Config) -> (r: Result<String, String>)
    requires
        sections_free(file_table(file_view(file))),
    ensures
        match r {
            Ok(s) => saved(file_view(file), cfg@) == Ok::<Seq<char>, Seq<char>>(s@),
            Err(m) => saved(file_view(file), cfg@) == Err::<Seq<char>, Seq<char>>(m@),
        },
{
    let mut t = read_table(file);
    insert_text(&mut t, "provider", cfg.provider.as_str());

    let mut a = read_section(&t, "anthropic");
    insert_text(&mut a, "base_url", cfg.anthropic.base_url.as_str());
    insert_text(&mut a, "model", cfg.anthropic.model.as_str());
    insert_integer(&mut a, "max_tokens", cfg.anthropic.max_tokens);
    put_section(&mut t, "anthropic", a);

    let mut o = read_section(&t, "openai");
    insert_text(&mut o, "base_url", cfg.openai.base_url.as_str());
    insert_text(&mut o, "model", cfg.openai.model.as_str());
    match cfg.openai.max_tokens {
        Some(n) => insert_integer(&mut o, "max_tokens", n),
        None => remove(&mut o, "max_tokens"),
    }
    insert_or_remove(&mut o, "thinking", &cfg.openai.thinking);
    insert_or_remove(&mut o, "reasoning_effort", &cfg.openai.reasoning_effort);
    put_section(&mut t, "openai", o);

    let mut s = read_section(&t, "security");
    insert_texts(&mut s, "forbidden", &cfg.security.forbidden);
    insert_texts(&mut s, "confirm", &cfg.security.confirm);
    insert_texts(&mut s, "auto", &cfg.security.auto);
    put_section(&mut t, "security", s);

    let mut c = read_section(&t, "context");
    insert_integer(&mut c, "limit", cfg.context.limit);
    let enabled = setting_value(Setting::Boolean(cfg.context.enabled));
    insert(&mut c, "enabled", enabled);
    put_section(&mut t, "context", c);

    assert(entries(t) == with_settings(file_table(file_view(file)), cfg@));
    match pretty(&t) {
        Ok(text) => Ok(text),
        Err(m) => Err(cat2("序列化失败: ", m.as_str())),
    }
}

/// [`write_back`] where the file leaves the sections free; nothing where something else stands in
/// the place of one.
pub fn try_write_back(file: Option<&str>, cfg: &Config) -> (r: Option<Result<String, String>>)
    ensures
        match r {
            Some(Ok(s)) => saved(file_view(file), cfg@) == Ok::<Seq<char>, Seq<char>>(s@),
            Some(Err(m)) => saved(file_view(file), cfg@) == Err::<Seq<char>, Seq<char>>(m@),
            None => true,
        },
        r is None <==> !sections_free(file_table(file_view(file))),
{
    let t = read_table(file);
    if section_free(&t, "anthropic") && section_free(&t, "openai") && section_free(&t, "security")
        && section_free(&t, "context") {
        Some(write_back(file, cfg))
    } else {
        None
    }
}

// ---- laws ----

/// Whether a setting stands under this key of the file itself.
pub open spec fn is_setting_key(key: Seq<char>) -> bool {
    ||| key == "provider"@
    ||| key == "anthropic"@
    ||| key == "openai"@
    ||| key == "security"@
    ||| key == "context"@
}

/// What the file holds beyond the settings stays as it was.
pub proof fn law_other_entries_stay(t: Map<Seq<char>, TomlTree>, c: ConfigView, key: Seq<char>)
    requires
        !is_setting_key(key),
    ensures
        with_settings(t, c).contains_key(key) == t.contains_key(key),
        t.contains_key(key) ==> with_settings(t, c)[key] == t[key],
{
}

/// Whether `after` holds under `key` what `before` does.
pub open spec fn same_under(
    after: Map<Seq<char>, TomlTree>,
    before: Map<Seq<char>, TomlTree>,
    key: Seq<char>,
) -> bool {
    &&& after.contains_key(key) == before.contains_key(key)
    &&& before.contains_key(key) ==> after[key] == before[key]
}

/// What a section holds beyond the settings, such as a user id, stays as it was.
pub proof fn law_other_entries_of_a_section_stay(
    s: Map<Seq<char>, TomlTree>,
    c: ConfigView,
    key: Seq<char>,
)
    ensures
        key != "base_url"@ && key != "model"@ && key != "max_tokens"@ ==> same_under(
            anthropic_section(s, c),
            s,
            key,
        ),
        key != "base_url"@ && key != "model"@ && key != "max_tokens"@ && key != "thinking"@ && key
            != "reasoning_effort"@ ==> same_under(openai_section(s, c), s, key),
        key != "forbidden"@ && key != "confirm"@ && key != "auto"@ ==> same_under(
            security_section(s, c),
            s,
            key,
        ),
        key != "limit"@ && key != "enabled"@ ==> same_under(context_section(s, c), s, key),
{
}

proof fn lemma_names()
    ensures
        "provider"@ != "anthropic"@,
        "provider"@ != "openai"@,
        "provider"@ != "security"@,
        "provider"@ != "context"@,
        "anthropic"@ != "openai"@,
        "anthropic"@ != "security"@,
        "anthropic"@ != "context"@,
        "openai"@ != "security"@,
        "openai"@ != "context"@,
        "security"@ != "context"@,
{
    reveal_strlit("provider");
    reveal_strlit("anthropic");
    reveal_strlit("openai");
    reveal_strlit("security");
    reveal_strlit("context");
    assert("provider"@[0] == 'p');
    assert("anthropic"@[0] == 'a');
    assert("openai"@[0] == 'o');
    assert("security"@[0] == 's');
    assert("context"@[0] == 'c');
}

/// Every setting stands in the file as it is configured, in sections that hold what they held
/// besides; and the file can be saved again.
pub proof fn law_settings_are_there(t: Map<Seq<char>, TomlTree>, c: ConfigView)
    ensures
        ({
            let w = with_settings(t, c);
            &&& w["provider"@] == TomlTree::Text(c.provider)
            &&& w["anthropic"@] == TomlTree::Table(
                anthropic_section(section(t, "anthropic"@), c),
            )
            &&& w["openai"@] == TomlTree::Table(openai_section(section(t, "openai"@), c))
            &&& w["security"@] == TomlTree::Table(security_section(section(t, "security"@), c))
            &&& w["context"@] == TomlTree::Table(context_section(section(t, "context"@), c))
            &&& sections_free(w)
        }),
{
    lemma_names();
}

/// Saving the same settings again changes nothing.
pub proof fn law_saving_again_changes_nothing(t: Map<Seq<char>, TomlTree>, c: ConfigView)
    ensures
        with_settings(with_settings(t, c), c) == with_settings(t, c),
{
    lemma_names();
    law_settings_are_there(t, c);
    let w = with_settings(t, c);
    let a = section(w, "anthropic"@);
    let o = section(w, "openai"@);
    let s = section(w, "security"@);
    let x = section(w, "context"@);
    assert(anthropic_section(a, c) =~= a);
    assert(openai_section(o, c) =~= o);
    assert(security_section(s, c) =~= s);
    assert(context_section(x, c) =~= x);
    law_settings_are_there(w, c);
    let z = with_settings(w, c);
    assert forall|key: Seq<char>| #[trigger] z.contains_key(key) == w.contains_key(key) && (
    z.contains_key(key) ==> z[key] == w[key]) by {
        if !is_setting_key(key) {
            law_other_entries_stay(w, c, key);
        }
    }
    assert(z =~= w);
}


/// Every setting stands in its section of the file under its name; one that is not set does not
/// stand there.
pub proof fn law_every_setting_is_written(t: Map<Seq<char>, TomlTree>, c: ConfigView)
    ensures
        ({
            let w = with_settings(t, c);
            let a = w["anthropic"@]->Table_0;
            let o = w["openai"@]->Table_0;
            let s = w["security"@]->Table_0;
            let x = w["context"@]->Table_0;
            &&& w["provider"@] == TomlTree::Text(c.provider)
            &&& a["base_url"@] == TomlTree::Text(c.anthropic.base_url)
            &&& a["model"@] == TomlTree::Text(c.anthropic.model)
            &&& a["max_tokens"@] == TomlTree::Integer(c.anthropic.max_tokens as i64)
            &&& o["base_url"@] == TomlTree::Text(c.openai.base_url)
            &&& o["model"@] == TomlTree::Text(c.openai.model)
            &&& c.openai.max_tokens is Some ==> o["max_tokens"@] == TomlTree::Integer(
                c.openai.max_tokens->0 as i64,
            )
            &&& o.contains_key("max_tokens"@) == (c.openai.max_tokens is Some)
            &&& c.openai.thinking is Some ==> o["thinking"@] == TomlTree::Text(c.openai.thinking->0)
            &&& o.contains_key("thinking"@) == (c.openai.thinking is Some)
            &&& c.openai.reasoning_effort is Some ==> o["reasoning_effort"@] == TomlTree::Text(
                c.openai.reasoning_effort->0,
            )
            &&& o.contains_key("reasoning_effort"@) == (c.openai.reasoning_effort is Some)
            &&& lists(s["forbidden"@], c.security.forbidden)
            &&& lists(s["confirm"@], c.security.confirm)
            &&& lists(s["auto"@], c.security.auto)
            &&& x["limit"@] == TomlTree::Integer(c.context.limit as i64)
            &&& x["enabled"@] == TomlTree::Boolean(c.context.enabled)
        }),
{
    lemma_names();
    law_settings_are_there(t, c);
    reveal_strlit("base_url");
    reveal_strlit("model");
    reveal_strlit("max_tokens");
    reveal_strlit("thinking");
    reveal_strlit("reasoning_effort");
    reveal_strlit("forbidden");
    reveal_strlit("confirm");
    reveal_strlit("auto");
    reveal_strlit("limit");
    reveal_strlit("enabled");
    assert("base_url"@[0] == 'b' && "model"@.len() == 5 && "max_tokens"@.len() == 10);
    assert("thinking"@[0] == 't' && "reasoning_effort"@[0] == 'r' && "model"@[0] == 'm');
    assert("max_tokens"@[0] == 'm');
    assert("forbidden"@[0] == 'f' && "confirm"@[0] == 'c' && "auto"@[0] == 'a');
    assert("limit"@[0] == 'l' && "enabled"@[0] == 'e');
}

/// Whether an entry is the list of texts `v`.
pub open spec fn lists(t: TomlTree, v: Seq<Seq<char>>) -> bool {
    &&& t is Array
    &&& t->Array_0.len() == v.len()
    &&& forall|i: int| 0 <= i < v.len() ==> #[trigger] t->Array_0[i] == TomlTree::Text(v[i])
}

} // verus!
