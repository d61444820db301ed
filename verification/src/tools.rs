//! Tools with one source of truth for schema and dispatch.
//!
//! The same registry answers "what tools exist?" and "run this one". Arguments
//! that cannot be read are a [`ToolError::InvalidArguments`], never a silent
//! default.
use vstd::prelude::*;
use vstd::string::*;

use crate::json::{json_of_text, parse_json, parsed_view, views, Json, JsonMap, JsonView};
use crate::text::{
    comes_before, is_white, joined, lemma_less_total, lemma_less_transitive, same_text, text_less,
    texts_are_in_dictionary_order, trim_text, trimming_leaves_what_is_not_white, IntoText,
};

verus! {

/// Why a tool call did not produce a normal result.
#[derive(Debug)]
pub enum ToolError {
    /// Arguments did not match the tool's declared schema.
    InvalidArguments { tool: String, reason: String },
    /// The model named a tool the registry doesn't have.
    NotFound(String),
    /// The tool ran and failed.
    Execution { tool: String, reason: String },
}

/// What a [`ToolError`] is.
#[verifier::ext_equal]
pub enum ToolErrorView {
    InvalidArguments { tool: Seq<char>, reason: Seq<char> },
    NotFound(Seq<char>),
    Execution { tool: Seq<char>, reason: Seq<char> },
}

impl View for ToolError {
    type V = ToolErrorView;

    open spec fn view(&self) -> ToolErrorView {
        match *self {
            ToolError::InvalidArguments { tool, reason } => ToolErrorView::InvalidArguments {
                tool: tool@,
                reason: reason@,
            },
            ToolError::NotFound(tool) => ToolErrorView::NotFound(tool@),
            ToolError::Execution { tool, reason } => ToolErrorView::Execution {
                tool: tool@,
                reason: reason@,
            },
        }
    }
}

impl ToolErrorView {
    /// What the error says.
    pub open spec fn message(self) -> Seq<char> {
        match self {
            ToolErrorView::InvalidArguments { tool, reason } => "invalid arguments for `"@ + tool
                + "`: "@ + reason,
            ToolErrorView::NotFound(tool) => "unknown tool `"@ + tool + "`"@,
            ToolErrorView::Execution { tool, reason } => "`"@ + tool + "` failed: "@ + reason,
        }
    }
}

impl ToolError {
    /// The error in words.
    pub fn to_string(&self) -> (res: String)
        ensures
            res@ == self@.message(),
    {
        match self {
            ToolError::InvalidArguments { tool, reason } => {
                let head = joined("invalid arguments for `", tool.as_str());
                joined(joined(head.as_str(), "`: ").as_str(), reason.as_str())
            },
            ToolError::NotFound(tool) => joined(
                joined("unknown tool `", tool.as_str()).as_str(),
                "`",
            ),
            ToolError::Execution { tool, reason } => {
                let head = joined("`", tool.as_str());
                joined(joined(head.as_str(), "` failed: ").as_str(), reason.as_str())
            },
        }
    }

    /// Render for the model. Tool failures are usually fed back as content so
    /// the agent can recover, rather than aborting the run.
    #[must_use]
    pub fn to_tool_output(&self) -> (res: ToolOutput)
        ensures
            res.content@ == self@.message(),
            res.is_error,
    {
        ToolOutput { content: self.to_string(), is_error: true }
    }
}

impl Clone for ToolError {
    fn clone(&self) -> (res: Self)
        ensures
            res@ == self@,
    {
        match self {
            ToolError::InvalidArguments { tool, reason } => ToolError::InvalidArguments {
                tool: tool.clone(),
                reason: reason.clone(),
            },
            ToolError::NotFound(tool) => ToolError::NotFound(tool.clone()),
            ToolError::Execution { tool, reason } => ToolError::Execution {
                tool: tool.clone(),
                reason: reason.clone(),
            },
        }
    }
}

/// What a tool hands back to the loop.
#[derive(Debug, PartialEq, Eq)]
pub struct ToolOutput {
    pub content: String,
    pub is_error: bool,
}

impl ToolOutput {
    /// A result.
    #[must_use]
    pub fn ok<S: IntoText>(content: S) -> (res: Self)
        ensures
            res.content@ == content.text(),
            !res.is_error,
    {
        ToolOutput { content: content.into_text(), is_error: false }
    }

    /// A failure that the tool reports in its own words.
    #[must_use]
    pub fn error<S: IntoText>(content: S) -> (res: Self)
        ensures
            res.content@ == content.text(),
            res.is_error,
    {
        ToolOutput { content: content.into_text(), is_error: true }
    }
}

impl Clone for ToolOutput {
    fn clone(&self) -> (res: Self)
        ensures
            res.content@ == self.content@,
            res.is_error == self.is_error,
    {
        ToolOutput { content: self.content.clone(), is_error: self.is_error }
    }
}

/// A schema without the members that providers reject or ignore.
pub open spec fn sanitized(schema: JsonView) -> JsonView {
    match schema {
        JsonView::Object(map) => JsonView::Object(map.remove("$schema"@).remove("title"@)),
        _ => schema,
    }
}

/// Strip metadata providers reject or ignore in function schemas.
pub fn sanitize_schema(schema: Json) -> (res: Json)
    ensures
        res@ == sanitized(schema@),
{
    match schema {
        Json::Object(map) => {
            let mut map = map;
            map.remove("$schema");
            map.remove("title");
            Json::Object(map)
        },
        other => other,
    }
}

/// The schema of an object of which nothing more is known.
pub open spec fn any_object() -> JsonView {
    JsonView::Object(
        Map::empty().insert("type"@, JsonView::String("object"@)).insert(
            "properties"@,
            JsonView::Object(Map::empty()),
        ),
    )
}

/// A tool that the model can call: what the model is told of it, and the handle
/// `H` by which the host runs it.
#[derive(Debug)]
pub struct ErasedTool<H> {
    pub name: &'static str,
    pub description: &'static str,
    /// JSON Schema of the arguments.
    pub schema: Json,
    pub handle: H,
}

/// What an [`ErasedTool`] is.
#[verifier::ext_equal]
pub struct ToolView<H> {
    pub name: Seq<char>,
    pub description: Seq<char>,
    pub schema: JsonView,
    pub handle: H,
}

impl<H> View for ErasedTool<H> {
    type V = ToolView<H>;

    open spec fn view(&self) -> ToolView<H> {
        ToolView {
            name: self.name@,
            description: self.description@,
            schema: self.schema@,
            handle: self.handle,
        }
    }
}

impl<H> ToolView<H> {
    /// The function-calling definition of a tool.
    pub open spec fn definition(self) -> JsonView {
        JsonView::Object(
            Map::empty().insert("type"@, JsonView::String("function"@)).insert(
                "function"@,
                JsonView::Object(
                    Map::empty().insert("name"@, JsonView::String(self.name)).insert(
                        "description"@,
                        JsonView::String(self.description),
                    ).insert("parameters"@, self.schema),
                ),
            ),
        )
    }
}

/// The arguments a tool is called with: none at all means an empty object.
pub open spec fn given_arguments(raw: JsonView) -> JsonView {
    if raw is Null {
        JsonView::Object(Map::empty())
    } else {
        raw
    }
}

impl<H> ErasedTool<H> {
    /// A tool whose schema is derived from the type of its arguments. A type that
    /// has none takes an object.
    pub fn derived(
        name: &'static str,
        description: &'static str,
        schema: Option<Json>,
        handle: H,
    ) -> (res: Self)
        ensures
            res@ == (ToolView {
                name: name@,
                description: description@,
                schema: match schema {
                    Some(schema) => sanitized(schema@),
                    None => any_object(),
                },
                handle,
            }),
    {
        let schema = match schema {
            Some(schema) => sanitize_schema(schema),
            None => {
                let mut map = JsonMap::new();
                map.set("type", Json::text("object"));
                map.set("properties", Json::Object(JsonMap::new()));
                Json::Object(map)
            },
        };
        ErasedTool { name, description, schema, handle }
    }

    /// OpenAI function-calling definition.
    pub fn definition(&self) -> (res: Json)
        ensures
            res@ == self@.definition(),
    {
        let mut function = JsonMap::new();
        function.set("name", Json::text(self.name));
        function.set("description", Json::text(self.description));
        function.set("parameters", self.schema.clone());
        let mut map = JsonMap::new();
        map.set("type", Json::text("function"));
        map.set("function", Json::Object(function));
        Json::Object(map)
    }

    /// What the tool is run with when the model sends `raw`.
    ///
    /// A missing `arguments` member is an empty object, not an error — models
    /// legitimately omit it for zero-argument tools. Anything *present but
    /// wrong* is left for the tool to reject.
    pub fn call_erased(&self, raw: Json) -> (res: (&H, Json))
        ensures
            *res.0 == self@.handle,
            res.1@ == given_arguments(raw@),
    {
        let args = if raw.is_null() {
            Json::Object(JsonMap::new())
        } else {
            raw
        };
        (&self.handle, args)
    }
}

/// What the arguments that a model sent as text are: nothing but white space is
/// an empty object, and a text that is no JSON is an error that names the tool.
pub open spec fn tool_args(
    tool: Seq<char>,
    arguments: Seq<char>,
    parsed: Result<JsonView, Seq<char>>,
) -> Result<JsonView, ToolErrorView> {
    if trim_text(arguments).len() == 0 {
        Ok(JsonView::Object(Map::empty()))
    } else {
        match parsed {
            Ok(json) => Ok(json),
            Err(reason) => Err(ToolErrorView::InvalidArguments { tool, reason }),
        }
    }
}

/// What arguments that were read, or were not, are.
pub open spec fn args_view(res: Result<Json, ToolError>) -> Result<JsonView, ToolErrorView> {
    match res {
        Ok(json) => Ok(json@),
        Err(e) => Err(e@),
    }
}

/// The arguments of a call, whose text `parsed` was read from.
pub fn parse_tool_args_of(tool: &str, arguments: &str, parsed: Result<Json, String>) -> (res:
    Result<Json, ToolError>)
    ensures
        args_view(res) == tool_args(tool@, arguments@, parsed_view(parsed)),
{
    if arguments.trim().is_empty() {
        return Ok(Json::Object(JsonMap::new()));
    }
    match parsed {
        Ok(json) => Ok(json),
        Err(reason) => Err(ToolError::InvalidArguments { tool: tool.to_owned(), reason }),
    }
}

/// Parse a model-supplied `arguments` string once, for both the approver and
/// dispatch.
///
/// # Errors
/// [`ToolError::InvalidArguments`] if the string isn't JSON.
pub fn parse_tool_args(tool: &str, arguments: &str) -> (res: Result<Json, ToolError>)
    ensures
        args_view(res) == tool_args(tool@, arguments@, json_of_text(trim_text(arguments@))),
{
    parse_tool_args_of(tool, arguments, parse_json(arguments.trim()))
}

/// Texts in strict order, which are those of a set.
pub open spec fn lists(names: Seq<Seq<char>>, set: Set<Seq<char>>) -> bool {
    &&& forall|i: int, j: int| 0 <= i < j < names.len() ==> text_less(names[i], names[j])
    &&& names.to_set() == set
}

/// The texts of a finite set in order.
pub open spec fn sorted(set: Set<Seq<char>>) -> Seq<Seq<char>> {
    choose|names: Seq<Seq<char>>| lists(names, set)
}

/// A set is listed in order in one way only.
proof fn lemma_listing_unique(a: Seq<Seq<char>>, b: Seq<Seq<char>>, set: Set<Seq<char>>)
    requires
        lists(a, set),
        lists(b, set),
    ensures
        a == b,
    decreases a.len(),
{
    if a.len() == 0 {
        if b.len() > 0 {
            assert(b.to_set().contains(b[0]));
            assert(a.contains(b[0]));
        }
        assert(a =~= b);
    } else if b.len() == 0 {
        assert(a.to_set().contains(a[0]));
        assert(b.contains(a[0]));
    } else {
        let (x, y) = (a.last(), b.last());
        if x != y {
            assert(a.to_set().contains(x));
            assert(b.contains(x));
            let i = choose|i: int| 0 <= i < b.len() && b[i] == x;
            assert(text_less(x, y));
            assert(b.to_set().contains(y));
            assert(a.contains(y));
            let j = choose|j: int| 0 <= j < a.len() && a[j] == y;
            assert(text_less(y, x));
            lemma_less_transitive(x, y, x);
        }
        assert(lists(a.drop_last(), set.remove(x))) by {
            lemma_without_last(a, set);
        }
        assert(lists(b.drop_last(), set.remove(x))) by {
            lemma_without_last(b, set);
        }
        lemma_listing_unique(a.drop_last(), b.drop_last(), set.remove(x));
        assert(a =~= a.drop_last().push(x));
        assert(b =~= b.drop_last().push(y));
    }
}

/// A listing without its last text lists the set without it.
proof fn lemma_without_last(names: Seq<Seq<char>>, set: Set<Seq<char>>)
    requires
        lists(names, set),
        names.len() > 0,
    ensures
        lists(names.drop_last(), set.remove(names.last())),
{
    let rest = names.drop_last();
    assert forall|n: Seq<char>| rest.to_set().contains(n) == set.remove(names.last()).contains(
        n,
    ) by {
        if rest.to_set().contains(n) {
            let i = choose|i: int| 0 <= i < rest.len() && rest[i] == n;
            assert(names[i] == n);
            assert(names.to_set().contains(n));
            assert(text_less(names[i], names.last()));
        }
        if set.remove(names.last()).contains(n) {
            assert(names.contains(n));
            let i = choose|i: int| 0 <= i < names.len() && names[i] == n;
            assert(rest[i] == n);
        }
    }
    assert(rest.to_set() =~= set.remove(names.last()));
}

/// What is listed is what sorting gives.
proof fn lemma_sorted(names: Seq<Seq<char>>, set: Set<Seq<char>>)
    requires
        lists(names, set),
    ensures
        sorted(set) == names,
{
    lemma_listing_unique(sorted(set), names, set);
}

/// The names of tools.
spec fn names_of<H>(tools: Seq<ErasedTool<H>>) -> Seq<Seq<char>> {
    tools.map_values(|t: ErasedTool<H>| t.name@)
}

/// The tools by their names.
spec fn by_name<H>(tools: Seq<ErasedTool<H>>) -> Map<Seq<char>, ToolView<H>> {
    Map::new(
        |name: Seq<char>| names_of(tools).contains(name),
        |name: Seq<char>| tools[names_of(tools).index_of(name)]@,
    )
}

/// Whether tools stand in strict order of their names.
spec fn in_order<H>(tools: Seq<ErasedTool<H>>) -> bool {
    forall|i: int, j: int|
        0 <= i < j < tools.len() ==> text_less(
            (#[trigger] tools[i]).name@,
            (#[trigger] tools[j]).name@,
        )
}

/// The tool at a place is the one that its name stands for.
proof fn lemma_by_name<H>(tools: Seq<ErasedTool<H>>, i: int)
    requires
        in_order(tools),
        0 <= i < tools.len(),
    ensures
        by_name(tools).dom().contains(tools[i].name@),
        by_name(tools)[tools[i].name@] == tools[i]@,
{
    let name = tools[i].name@;
    let names = names_of(tools);
    assert(names[i] == name);
    let k = names.index_of(name);
    assert(0 <= k < names.len() && names[k] == name);
    if k < i {
        assert(text_less(tools[k].name@, tools[i].name@));
    } else if i < k {
        assert(text_less(tools[i].name@, tools[k].name@));
    }
}

/// The names of tools in order are the names that are known, in order.
proof fn lemma_names_listed<H>(tools: Seq<ErasedTool<H>>)
    requires
        in_order(tools),
    ensures
        sorted(by_name(tools).dom()) == names_of(tools),
        lists(names_of(tools), by_name(tools).dom()),
        named(by_name(tools)),
        by_name(tools).dom().finite(),
        by_name(tools).len() == tools.len(),
{
    let names = names_of(tools);
    assert(names.to_set() =~= by_name(tools).dom());
    assert forall|i: int, j: int| 0 <= i < j < names.len() implies text_less(
        names[i],
        names[j],
    ) by {
        assert(text_less(tools[i].name@, tools[j].name@));
    }
    lemma_sorted(names, by_name(tools).dom());
    assert(names.no_duplicates()) by {
        assert forall|i: int, j: int| 0 <= i < names.len() && 0 <= j < names.len() && i
            != j implies names[i] != names[j] by {
            if i < j {
                assert(text_less(names[i], names[j]));
            } else {
                assert(text_less(names[j], names[i]));
            }
        }
    }
    names.unique_seq_to_set();
}

/// Name → tool. The same map answers "what tools exist?" and "run this one".
#[derive(Debug)]
pub struct ToolRegistry<H> {
    tools: Vec<ErasedTool<H>>,
}

impl<H> View for ToolRegistry<H> {
    type V = Map<Seq<char>, ToolView<H>>;

    closed spec fn view(&self) -> Map<Seq<char>, ToolView<H>> {
        by_name(self.tools@)
    }
}

/// Whether every tool is known by the name that it has.
pub open spec fn named<H>(tools: Map<Seq<char>, ToolView<H>>) -> bool {
    forall|name: Seq<char>| #[trigger] tools.dom().contains(name) ==> tools[name].name == name
}

/// The texts of a list of names.
pub open spec fn texts(names: Seq<&str>) -> Seq<Seq<char>> {
    names.map_values(|n: &str| n@)
}

/// The definitions of the tools with these names.
pub open spec fn definitions_of<H>(
    tools: Map<Seq<char>, ToolView<H>>,
    names: Seq<Seq<char>>,
) -> Seq<JsonView> {
    names.map_values(|n: Seq<char>| tools[n].definition())
}

/// The names that a registry has.
pub open spec fn known<H>(tools: Map<Seq<char>, ToolView<H>>, names: Seq<Seq<char>>) -> Seq<
    Seq<char>,
> {
    names.filter(|n: Seq<char>| tools.dom().contains(n))
}

/// The names that a registry does not have.
pub open spec fn unknown<H>(tools: Map<Seq<char>, ToolView<H>>, names: Seq<Seq<char>>) -> Seq<
    Seq<char>,
> {
    names.filter(|n: Seq<char>| !tools.dom().contains(n))
}

impl<H> ToolRegistry<H> {
    #[verifier::type_invariant]
    spec fn ordered(self) -> bool {
        in_order(self.tools@)
    }

    /// A registry without tools.
    #[must_use]
    pub fn new() -> (res: Self)
        ensures
            res@ == Map::<Seq<char>, ToolView<H>>::empty(),
    {
        let res = ToolRegistry { tools: Vec::new() };
        assert(res@ =~= Map::<Seq<char>, ToolView<H>>::empty());
        res
    }

    /// The first place whose tool does not come before `name`.
    fn place(&self, name: &str) -> (res: usize)
        ensures
            in_order(self.tools@),
            res <= self.tools@.len(),
            forall|i: int| 0 <= i < res ==> text_less((#[trigger] self.tools@[i]).name@, name@),
            res < self.tools@.len() ==> !text_less(self.tools@[res as int].name@, name@),
    {
        proof {
            use_type_invariant(self);
        }
        let mut i: usize = 0;
        while i < self.tools.len() && comes_before(self.tools[i].name, name)
            invariant
                i <= self.tools@.len(),
                forall|j: int| 0 <= j < i ==> text_less((#[trigger] self.tools@[j]).name@, name@),
            decreases self.tools@.len() - i,
        {
            i += 1;
        }
        i
    }

    /// The tool with this name.
    pub fn get(&self, name: &str) -> (res: Option<&ErasedTool<H>>)
        ensures
            named(self@),
            match res {
                Some(tool) => self@.dom().contains(name@) && tool@ == self@[name@],
                None => !self@.dom().contains(name@),
            },
    {
        let i = self.place(name);
        proof {
            lemma_names_listed(self.tools@);
        }
        if i < self.tools.len() && same_text(self.tools[i].name, name) {
            proof {
                lemma_by_name(self.tools@, i as int);
            }
            Some(&self.tools[i])
        } else {
            proof {
                lemma_absent(self.tools@, name@, i as int);
            }
            None
        }
    }

    /// Register a tool. A duplicate name replaces the earlier registration.
    pub fn register(&mut self, tool: ErasedTool<H>)
        ensures
            final(self)@ == old(self)@.insert(tool@.name, tool@),
    {
        let i = self.place(tool.name);
        let ghost before = self.tools@;
        let ghost (name, added) = (tool.name@, tool);
        let mut tools: Vec<ErasedTool<H>> = Vec::new();
        core::mem::swap(&mut tools, &mut self.tools);
        if i < tools.len() && same_text(tools[i].name, tool.name) {
            tools.set(i, tool);
            proof {
                lemma_replaced(before, added, i as int);
            }
        } else {
            proof {
                lemma_absent(before, name, i as int);
                lemma_inserted(before, added, i as int);
            }
            tools.insert(i, tool);
        }
        self.tools = tools;
    }

    /// Builder form of [`ToolRegistry::register`].
    #[must_use]
    pub fn with(self, tool: ErasedTool<H>) -> (res: Self)
        ensures
            res@ == self@.insert(tool@.name, tool@),
    {
        let mut registry = self;
        registry.register(tool);
        registry
    }

    /// How many tools there are.
    #[must_use]
    pub fn len(&self) -> (res: usize)
        ensures
            self@.dom().finite(),
            res == self@.len(),
    {
        proof {
            use_type_invariant(self);
            lemma_names_listed(self.tools@);
        }
        self.tools.len()
    }

    /// Whether there are no tools.
    #[must_use]
    pub fn is_empty(&self) -> (res: bool)
        ensures
            res == (self@.dom() == Set::<Seq<char>>::empty()),
    {
        let n = self.len();
        proof {
            if n == 0 {
                assert(self@.dom() =~= Set::empty());
            }
        }
        n == 0
    }

    /// Registered names, sorted — so prompts and snapshots are deterministic.
    #[must_use]
    pub fn names(&self) -> (res: Vec<&'static str>)
        ensures
            texts(res@) == sorted(self@.dom()),
            lists(texts(res@), self@.dom()),
            named(self@),
    {
        proof {
            use_type_invariant(self);
            lemma_names_listed(self.tools@);
        }
        let mut names: Vec<&'static str> = Vec::new();
        for i in 0..self.tools.len()
            invariant
                names@.len() == i,
                forall|j: int| 0 <= j < i ==> (#[trigger] names@[j])@ == self.tools@[j].name@,
        {
            names.push(self.tools[i].name);
        }
        assert(texts(names@) =~= names_of(self.tools@));
        names
    }

    /// Whether a tool of this name is registered.
    #[must_use]
    pub fn contains(&self, name: &str) -> (res: bool)
        ensures
            res == self@.dom().contains(name@),
    {
        self.get(name).is_some()
    }

    /// Definitions for every tool, in sorted-name order.
    #[must_use]
    pub fn definitions(&self) -> (res: Vec<Json>)
        ensures
            views(res@) == definitions_of(self@, sorted(self@.dom())),
            lists(sorted(self@.dom()), self@.dom()),
            named(self@),
    {
        proof {
            use_type_invariant(self);
            lemma_names_listed(self.tools@);
        }
        let mut defs: Vec<Json> = Vec::new();
        for i in 0..self.tools.len()
            invariant
                in_order(self.tools@),
                defs@.len() == i,
                forall|j: int|
                    0 <= j < i ==> (#[trigger] defs@[j])@ == self.tools@[j]@.definition(),
        {
            defs.push(self.tools[i].definition());
        }
        proof {
            let names = names_of(self.tools@);
            assert forall|j: int| 0 <= j < names.len() implies views(defs@)[j]
                == #[trigger] definitions_of(self@, names)[j] by {
                lemma_by_name(self.tools@, j);
            }
            assert(views(defs@) =~= definitions_of(self@, names));
        }
        defs
    }

    /// Definitions for a named subset — the tool-scoping primitive.
    ///
    /// Tool descriptions are always-on context: they sit in the prompt every
    /// turn whether called or not. Names that aren't registered are returned
    /// separately rather than dropped silently, so a typo in a scope list is
    /// visible.
    #[must_use]
    pub fn definitions_for(&self, names: &[&str]) -> (res: (Vec<Json>, Vec<String>))
        ensures
            named(self@),
            views(res.0@) == definitions_of(self@, known(self@, texts(names@))),
            res.1@.map_values(|s: String| s@) == unknown(self@, texts(names@)),
    {
        let mut defs: Vec<Json> = Vec::new();
        let mut missing: Vec<String> = Vec::new();
        let ghost all = texts(names@);
        proof {
            reveal(Seq::filter);
            assert(all.take(0) =~= Seq::<Seq<char>>::empty());
            assert(views(defs@) =~= definitions_of(self@, known(self@, all.take(0))));
            assert(missing@.map_values(|s: String| s@) =~= unknown(self@, all.take(0)));
        }
        for i in 0..names.len()
            invariant
                all == texts(names@),
                views(defs@) == definitions_of(self@, known(self@, all.take(i as int))),
                missing@.map_values(|s: String| s@) == unknown(self@, all.take(i as int)),
        {
            let ghost (defs_before, missing_before) = (defs@, missing@);
            let ghost next = all.take(i + 1);
            proof {
                reveal(Seq::filter);
                assert(next.drop_last() =~= all.take(i as int));
                assert(next.last() == names@[i as int]@);
            }
            match self.get(names[i]) {
                Some(tool) => {
                    let def = tool.definition();
                    defs.push(def);
                    assert(views(defs@) =~= views(defs_before).push(def@));
                    assert(definitions_of(self@, known(self@, next)) =~= definitions_of(
                        self@,
                        known(self@, all.take(i as int)),
                    ).push(def@));
                },
                None => {
                    missing.push(names[i].to_owned());
                    assert(missing@.map_values(|s: String| s@) =~= missing_before.map_values(
                        |s: String| s@,
                    ).push(names@[i as int]@));
                },
            }
        }
        assert(all.take(names@.len() as int) =~= all);
        (defs, missing)
    }

    /// Dispatch a call: the handle to run, and the arguments to run it with.
    ///
    /// # Errors
    /// [`ToolError::NotFound`] for an unknown name.
    pub fn call(&self, name: &str, raw: Json) -> (res: Result<(&H, Json), ToolError>)
        ensures
            named(self@),
            dispatch_view(res) == dispatch(self@, name@, raw@),
    {
        match self.get(name) {
            Some(tool) => Ok(tool.call_erased(raw)),
            None => Err(ToolError::NotFound(name.to_owned())),
        }
    }

    /// Dispatch, parsing `arguments` from the raw string a model sends.
    ///
    /// # Errors
    /// [`ToolError::InvalidArguments`] if the string isn't JSON,
    /// [`ToolError::NotFound`] for an unknown name.
    pub fn call_raw_args(&self, name: &str, arguments: &str) -> (res: Result<
        (&H, Json),
        ToolError,
    >)
        ensures
            dispatch_view(res) == dispatch_text(
                self@,
                name@,
                arguments@,
                json_of_text(trim_text(arguments@)),
            ),
    {
        match parse_tool_args(name, arguments) {
            Ok(raw) => self.call(name, raw),
            Err(e) => Err(e),
        }
    }
}

impl<H: Clone> Clone for ErasedTool<H> {
    fn clone(&self) -> (res: Self)
        ensures
            res.name == self.name,
            res.description == self.description,
            res.schema@ == self.schema@,
            cloned::<H>(self.handle, res.handle),
    {
        ErasedTool {
            name: self.name,
            description: self.description,
            schema: self.schema.clone(),
            handle: self.handle.clone(),
        }
    }
}

impl<H: Clone> Clone for ToolRegistry<H> {
    fn clone(&self) -> (res: Self)
        ensures
            res@.dom() == self@.dom(),
            forall|name: Seq<char>| #[trigger]
                self@.dom().contains(name) ==> {
                    &&& res@[name].name == self@[name].name
                    &&& res@[name].description == self@[name].description
                    &&& res@[name].schema == self@[name].schema
                    &&& cloned::<H>(self@[name].handle, res@[name].handle)
                },
    {
        proof {
            use_type_invariant(self);
        }
        let mut tools: Vec<ErasedTool<H>> = Vec::new();
        for i in 0..self.tools.len()
            invariant
                tools@.len() == i,
                forall|j: int| #![trigger tools@[j]]
                    0 <= j < i ==> {
                        &&& tools@[j].name == self.tools@[j].name
                        &&& tools@[j].description == self.tools@[j].description
                        &&& tools@[j].schema@ == self.tools@[j].schema@
                        &&& cloned::<H>(self.tools@[j].handle, tools@[j].handle)
                    },
        {
            tools.push(self.tools[i].clone());
        }
        proof {
            assert(names_of(tools@) =~= names_of(self.tools@));
            assert forall|i: int, j: int| 0 <= i < j < tools@.len() implies text_less(
                (#[trigger] tools@[i]).name@,
                (#[trigger] tools@[j]).name@,
            ) by {
                assert(text_less(self.tools@[i].name@, self.tools@[j].name@));
            }
            assert(by_name(tools@).dom() =~= by_name(self.tools@).dom());
        }
        ToolRegistry { tools }
    }
}

impl<H> Default for ToolRegistry<H> {
    fn default() -> (res: Self)
        ensures
            res@ == Map::<Seq<char>, ToolView<H>>::empty(),
    {
        Self::new()
    }
}

/// What is run for a call, or why nothing is.
pub open spec fn dispatch_view<H>(res: Result<(&H, Json), ToolError>) -> Result<
    (H, JsonView),
    ToolErrorView,
> {
    match res {
        Ok((handle, args)) => Ok((*handle, args@)),
        Err(e) => Err(e@),
    }
}

/// What is run when the model calls the tool `name` with `raw`.
pub open spec fn dispatch<H>(
    tools: Map<Seq<char>, ToolView<H>>,
    name: Seq<char>,
    raw: JsonView,
) -> Result<(H, JsonView), ToolErrorView> {
    if tools.dom().contains(name) {
        Ok((tools[name].handle, given_arguments(raw)))
    } else {
        Err(ToolErrorView::NotFound(name))
    }
}

/// What is run when the model calls the tool `name` with the text `arguments`,
/// which `parsed` was read from.
pub open spec fn dispatch_text<H>(
    tools: Map<Seq<char>, ToolView<H>>,
    name: Seq<char>,
    arguments: Seq<char>,
    parsed: Result<JsonView, Seq<char>>,
) -> Result<(H, JsonView), ToolErrorView> {
    match tool_args(name, arguments, parsed) {
        Ok(raw) => dispatch(tools, name, raw),
        Err(e) => Err(e),
    }
}

/// A name that the tool at its place does not have is no tool's name.
proof fn lemma_absent<H>(tools: Seq<ErasedTool<H>>, name: Seq<char>, place: int)
    requires
        in_order(tools),
        0 <= place <= tools.len(),
        forall|i: int| 0 <= i < place ==> text_less((#[trigger] tools[i]).name@, name),
        place < tools.len() ==> !text_less(tools[place].name@, name) && tools[place].name@ != name,
    ensures
        !by_name(tools).dom().contains(name),
        forall|i: int| place <= i < tools.len() ==> text_less(name, (#[trigger] tools[i]).name@),
{
    assert forall|i: int| place <= i < tools.len() implies text_less(
        name,
        (#[trigger] tools[i]).name@,
    ) by {
        lemma_less_total(name, tools[place].name@);
        if place < i {
            lemma_less_transitive(name, tools[place].name@, tools[i].name@);
        }
    }
    if names_of(tools).contains(name) {
        let i = names_of(tools).index_of(name);
        assert(tools[i].name@ == name);
    }
}

/// A tool put in the place of one with its name.
proof fn lemma_replaced<H>(tools: Seq<ErasedTool<H>>, tool: ErasedTool<H>, place: int)
    requires
        in_order(tools),
        0 <= place < tools.len(),
        tools[place].name@ == tool.name@,
    ensures
        in_order(tools.update(place, tool)),
        by_name(tools.update(place, tool)) == by_name(tools).insert(tool.name@, tool@),
{
    let after = tools.update(place, tool);
    assert(in_order(after)) by {
        assert forall|i: int, j: int| 0 <= i < j < after.len() implies text_less(
            (#[trigger] after[i]).name@,
            (#[trigger] after[j]).name@,
        ) by {
            assert(text_less(tools[i].name@, tools[j].name@));
        }
    }
    assert(names_of(after) =~= names_of(tools));
    lemma_by_name(after, place);
    assert forall|n: Seq<char>| by_name(after).dom().contains(n) implies by_name(after)[n]
        == #[trigger] by_name(tools).insert(tool.name@, tool@)[n] by {
        let i = names_of(after).index_of(n);
        lemma_by_name(after, i);
        if i != place {
            lemma_by_name(tools, i);
            if n == tool.name@ {
                lemma_by_name(after, place);
                if i < place {
                    assert(text_less(after[i].name@, after[place].name@));
                } else {
                    assert(text_less(after[place].name@, after[i].name@));
                }
            }
        }
    }
    assert(by_name(after) =~= by_name(tools).insert(tool.name@, tool@));
}

/// A tool put between those before it and those after it.
proof fn lemma_inserted<H>(tools: Seq<ErasedTool<H>>, tool: ErasedTool<H>, place: int)
    requires
        in_order(tools),
        0 <= place <= tools.len(),
        forall|i: int| 0 <= i < place ==> text_less((#[trigger] tools[i]).name@, tool.name@),
        forall|i: int|
            place <= i < tools.len() ==> text_less(tool.name@, (#[trigger] tools[i]).name@),
    ensures
        in_order(tools.insert(place, tool)),
        by_name(tools.insert(place, tool)) == by_name(tools).insert(tool.name@, tool@),
{
    let after = tools.insert(place, tool);
    assert(in_order(after)) by {
        assert forall|i: int, j: int| 0 <= i < j < after.len() implies text_less(
            (#[trigger] after[i]).name@,
            (#[trigger] after[j]).name@,
        ) by {
            let p = if i < place {
                i
            } else {
                i - 1
            };
            let q = if j < place {
                j
            } else {
                j - 1
            };
            if i == place {
                assert(text_less(tool.name@, tools[q].name@));
            } else if j == place {
                assert(text_less(tools[p].name@, tool.name@));
            } else {
                assert(text_less(tools[p].name@, tools[q].name@));
            }
        }
    }
    let expected = by_name(tools).insert(tool.name@, tool@);
    lemma_by_name(after, place);
    assert forall|n: Seq<char>| #[trigger]
        by_name(after).dom().contains(n) == expected.dom().contains(n) by {
        if by_name(after).dom().contains(n) {
            let i = names_of(after).index_of(n);
            if i < place {
                lemma_by_name(tools, i);
            } else if i > place {
                lemma_by_name(tools, i - 1);
            }
        }
        if by_name(tools).dom().contains(n) {
            let i = names_of(tools).index_of(n);
            if i < place {
                lemma_by_name(after, i);
            } else {
                lemma_by_name(after, i + 1);
            }
        }
    }
    assert forall|n: Seq<char>| by_name(after).dom().contains(n) implies by_name(after)[n]
        == #[trigger] expected[n] by {
        let i = names_of(after).index_of(n);
        lemma_by_name(after, i);
        if i < place {
            lemma_by_name(tools, i);
        } else if i > place {
            lemma_by_name(tools, i - 1);
        }
    }
    assert(by_name(after) =~= expected);
}

/// Sorting lists every text of a finite set, once and in ascending order.
pub proof fn sorting_lists_in_order(set: Set<Seq<char>>)
    requires
        set.finite(),
    ensures
        lists(sorted(set), set),
    decreases set.len(),
{
    if set.len() == 0 {
        assert(set =~= Set::empty());
        assert(Seq::<Seq<char>>::empty().to_set() =~= set);
        assert(lists(Seq::empty(), set));
    } else {
        let name = set.choose();
        let rest = set.remove(name);
        sorting_lists_in_order(rest);
        let before = sorted(rest);
        assert forall|i: int| 0 <= i < before.len() implies #[trigger] before[i] != name by {
            assert(before.to_set().contains(before[i]));
        }
        let place = lemma_has_place(before, name, before.len() as int);
        let after = before.insert(place, name);
        assert forall|i: int, j: int| 0 <= i < j < after.len() implies text_less(
            after[i],
            after[j],
        ) by {
            let p = if i < place {
                i
            } else {
                i - 1
            };
            let q = if j < place {
                j
            } else {
                j - 1
            };
            if i == place {
                assert(text_less(name, before[q]));
            } else if j == place {
                assert(text_less(before[p], name));
            } else {
                assert(text_less(before[p], before[q]));
            }
        }
        assert forall|n: Seq<char>| after.to_set().contains(n) == set.contains(n) by {
            if after.contains(n) {
                let i = choose|i: int| 0 <= i < after.len() && after[i] == n;
                if i < place {
                    assert(before.to_set().contains(before[i]));
                } else if i > place {
                    assert(before.to_set().contains(before[i - 1]));
                }
            }
            if set.contains(n) {
                if n == name {
                    assert(after[place] == n);
                } else {
                    assert(before.contains(n));
                    let i = choose|i: int| 0 <= i < before.len() && before[i] == n;
                    if i < place {
                        assert(after[i] == n);
                    } else {
                        assert(after[i + 1] == n);
                    }
                }
            }
        }
        assert(after.to_set() =~= set);
        assert(lists(after, set));
    }
}

/// Where a text belongs among the first `end` texts of a listing that is without it.
proof fn lemma_has_place(names: Seq<Seq<char>>, name: Seq<char>, end: int) -> (place: int)
    requires
        forall|i: int, j: int| 0 <= i < j < names.len() ==> text_less(names[i], names[j]),
        forall|i: int| 0 <= i < names.len() ==> #[trigger] names[i] != name,
        0 <= end <= names.len(),
    ensures
        0 <= place <= end,
        forall|i: int| 0 <= i < place ==> text_less(#[trigger] names[i], name),
        forall|i: int| place <= i < end ==> text_less(name, #[trigger] names[i]),
    decreases end,
{
    if end == 0 {
        0
    } else {
        let last = names[end - 1];
        lemma_less_total(name, last);
        if text_less(last, name) {
            assert forall|i: int| 0 <= i < end implies text_less(#[trigger] names[i], name) by {
                if i < end - 1 {
                    lemma_less_transitive(names[i], last, name);
                }
            }
            end
        } else {
            lemma_has_place(names, name, end - 1)
        }
    }
}

/// The tools that a model is told of are those that can be called: the name that
/// each definition gives is one under which dispatch finds that tool, and each tool
/// that dispatch finds has its definition among them.
pub proof fn what_is_advertised_is_what_can_be_called<H>(
    tools: Map<Seq<char>, ToolView<H>>,
    raw: JsonView,
)
    requires
        named(tools),
        tools.dom().finite(),
    ensures
        ({
            let names = sorted(tools.dom());
            let definitions = definitions_of(tools, names);
            &&& definitions.len() == names.len()
            &&& forall|i: int|
                0 <= i < names.len() ==> {
                    &&& (#[trigger] definitions[i]).at("function"@).at("name"@) == JsonView::String(
                        names[i],
                    )
                    &&& definitions[i] == tools[names[i]].definition()
                    &&& dispatch(tools, names[i], raw) == Ok::<(H, JsonView), ToolErrorView>(
                        (tools[names[i]].handle, given_arguments(raw)),
                    )
                }
            &&& forall|name: Seq<char>| #[trigger]
                dispatch(tools, name, raw) is Ok ==> names.contains(name)
        }),
{
    sorting_lists_in_order(tools.dom());
    let names = sorted(tools.dom());
    let definitions = definitions_of(tools, names);
    assert forall|i: int| 0 <= i < names.len() implies tools.dom().contains(
        #[trigger] names[i],
    ) by {
        assert(names.to_set().contains(names[i]));
    }
    assert forall|i: int| 0 <= i < names.len() implies (#[trigger] definitions[i]).at(
        "function"@,
    ).at("name"@) == JsonView::String(names[i]) by {
        assert(tools.dom().contains(names[i]));
        lemma_definition_names(tools[names[i]]);
    }
    assert forall|name: Seq<char>| #[trigger]
        dispatch(tools, name, raw) is Ok implies names.contains(name) by {
        assert(names.to_set().contains(name));
    }
}

/// A definition gives the name of its tool.
proof fn lemma_definition_names<H>(tool: ToolView<H>)
    ensures
        tool.definition().at("function"@).at("name"@) == JsonView::String(tool.name),
{
    reveal_strlit("type");
    reveal_strlit("function");
    reveal_strlit("name");
    reveal_strlit("description");
    reveal_strlit("parameters");
    assert("type"@.len() == 4 && "function"@.len() == 8 && "name"@.len() == 4
        && "description"@.len() == 11 && "parameters"@.len() == 10);
}

/// Registering a tool keeps every tool under the name that it has.
pub proof fn registering_keeps_names<H>(tools: Map<Seq<char>, ToolView<H>>, tool: ToolView<H>)
    requires
        named(tools),
    ensures
        named(tools.insert(tool.name, tool)),
{
}

/// A tool registered under a name that is taken replaces the tool that had it.
pub proof fn registering_again_replaces<H>(
    tools: Map<Seq<char>, ToolView<H>>,
    first: ToolView<H>,
    second: ToolView<H>,
)
    requires
        first.name == second.name,
    ensures
        tools.insert(first.name, first).insert(second.name, second) == tools.insert(
            second.name,
            second,
        ),
{
    assert(tools.insert(first.name, first).insert(second.name, second) =~= tools.insert(
        second.name,
        second,
    ));
}

/// The definitions that a model is sent do not depend on the order in which tools
/// of different names were registered.
pub proof fn order_of_registering_does_not_matter<H>(
    tools: Map<Seq<char>, ToolView<H>>,
    a: ToolView<H>,
    b: ToolView<H>,
)
    requires
        a.name != b.name,
    ensures
        ({
            let ab = tools.insert(a.name, a).insert(b.name, b);
            let ba = tools.insert(b.name, b).insert(a.name, a);
            definitions_of(ab, sorted(ab.dom())) == definitions_of(ba, sorted(ba.dom()))
        }),
{
    assert(tools.insert(a.name, a).insert(b.name, b) =~= tools.insert(b.name, b).insert(a.name, a));
}

/// Arguments that are no JSON run nothing: they never turn into defaults.
pub proof fn malformed_arguments_run_nothing<H>(
    tools: Map<Seq<char>, ToolView<H>>,
    name: Seq<char>,
    arguments: Seq<char>,
    reason: Seq<char>,
)
    requires
        trim_text(arguments).len() > 0,
    ensures
        dispatch_text(tools, name, arguments, Err(reason)) == Err::<(H, JsonView), ToolErrorView>(
            ToolErrorView::InvalidArguments { tool: name, reason },
        ),
{
}

/// Every name of a scope is either advertised or reported as missing: none is
/// dropped.
pub proof fn no_name_of_a_scope_is_dropped<H>(
    tools: Map<Seq<char>, ToolView<H>>,
    names: Seq<Seq<char>>,
)
    ensures
        definitions_of(tools, known(tools, names)).len() + unknown(tools, names).len()
            == names.len(),
    decreases names.len(),
{
    reveal(Seq::filter);
    if names.len() > 0 {
        no_name_of_a_scope_is_dropped(tools, names.drop_last());
    }
}

/// The definition of a tool tells its name, what it is for and what it takes, and
/// nothing else.
pub proof fn a_definition_tells_of_its_tool<H>(tool: ToolView<H>, member: Seq<char>)
    ensures
        ({
            let def = tool.definition();
            let function = def.at("function"@);
            &&& def.get("type"@) == Some(JsonView::String("function"@))
            &&& function.get("name"@) == Some(JsonView::String(tool.name))
            &&& function.get("description"@) == Some(JsonView::String(tool.description))
            &&& function.get("parameters"@) == Some(tool.schema)
            &&& member != "type"@ && member != "function"@ ==> def.get(member) is None
            &&& member != "name"@ && member != "description"@ && member != "parameters"@
                ==> function.get(member) is None
        }),
{
    reveal_strlit("type");
    reveal_strlit("function");
    reveal_strlit("name");
    reveal_strlit("description");
    reveal_strlit("parameters");
    assert("type"@.len() == 4 && "function"@.len() == 8 && "name"@.len() == 4
        && "description"@.len() == 11 && "parameters"@.len() == 10);
}

/// A schema loses its title and the mention of its dialect, and keeps everything
/// else; what is no object stays as it is.
pub proof fn a_schema_loses_only_its_metadata(schema: JsonView, member: Seq<char>)
    ensures
        sanitized(schema).get("$schema"@) is None,
        sanitized(schema).get("title"@) is None,
        member != "$schema"@ && member != "title"@ ==> sanitized(schema).get(member) == schema.get(
            member,
        ),
        schema is Object <==> sanitized(schema) is Object,
        schema !is Object ==> sanitized(schema) == schema,
{
}

/// A call of a tool that exists runs that tool with the arguments that were sent, an
/// empty object where none were; a call of another is told apart by its name.
pub proof fn a_call_runs_the_tool_that_it_names<H>(
    tools: Map<Seq<char>, ToolView<H>>,
    name: Seq<char>,
    raw: JsonView,
)
    ensures
        tools.dom().contains(name) ==> (dispatch(tools, name, raw) matches Ok((handle, args))
            && handle == tools[name].handle && (raw !is Null ==> args == raw) && (raw is Null
            ==> args == JsonView::Object(Map::empty()))),
        !tools.dom().contains(name) ==> dispatch(tools, name, raw) == Err::<
            (H, JsonView),
            ToolErrorView,
        >(ToolErrorView::NotFound(name)),
{
}

/// Arguments that can be read are what the tool is run with, as they are; a text of
/// nothing but white space is an empty object, whatever else it would be read as; a
/// text that cannot be read is an error of that tool with the reason.
pub proof fn arguments_are_read_as_they_are(
    tool: Seq<char>,
    arguments: Seq<char>,
    parsed: Result<JsonView, Seq<char>>,
    i: int,
)
    ensures
        (forall|j: int| 0 <= j < arguments.len() ==> is_white(#[trigger] arguments[j]))
            ==> tool_args(tool, arguments, parsed) == Ok::<JsonView, ToolErrorView>(
            JsonView::Object(Map::empty()),
        ),
        0 <= i < arguments.len() && !is_white(arguments[i]) ==> tool_args(tool, arguments, parsed)
            == match parsed {
            Ok(json) => Ok::<JsonView, ToolErrorView>(json),
            Err(reason) => Err(ToolErrorView::InvalidArguments { tool, reason }),
        },
{
    trimming_leaves_what_is_not_white(arguments);
}

/// A call whose arguments are sent as text runs what the call with the value that the
/// text is runs; a text of nothing but white space is an empty object.
pub proof fn a_call_by_text_is_the_call_by_value<H>(
    tools: Map<Seq<char>, ToolView<H>>,
    name: Seq<char>,
    arguments: Seq<char>,
    json: JsonView,
    parsed: Result<JsonView, Seq<char>>,
)
    ensures
        (exists|i: int| 0 <= i < arguments.len() && !is_white(#[trigger] arguments[i]))
            ==> dispatch_text(tools, name, arguments, Ok(json)) == dispatch(tools, name, json),
        (forall|i: int| 0 <= i < arguments.len() ==> is_white(#[trigger] arguments[i]))
            ==> dispatch_text(tools, name, arguments, parsed) == dispatch(
            tools,
            name,
            JsonView::Object(Map::empty()),
        ),
{
    trimming_leaves_what_is_not_white(arguments);
}

/// A scope is gone through name by name: one more name adds, at the end, the
/// definition of the tool that has it, or else itself to those that are missing.
pub proof fn one_more_name_in_a_scope<H>(
    tools: Map<Seq<char>, ToolView<H>>,
    names: Seq<Seq<char>>,
    name: Seq<char>,
)
    ensures
        definitions_of(tools, known(tools, names.push(name))) == if tools.dom().contains(name) {
            definitions_of(tools, known(tools, names)).push(tools[name].definition())
        } else {
            definitions_of(tools, known(tools, names))
        },
        unknown(tools, names.push(name)) == if tools.dom().contains(name) {
            unknown(tools, names)
        } else {
            unknown(tools, names).push(name)
        },
        definitions_of(tools, known(tools, Seq::empty())).len() == 0,
        unknown(tools, Seq::empty()).len() == 0,
{
    reveal(Seq::filter);
    assert(names.push(name).drop_last() =~= names);
    if tools.dom().contains(name) {
        assert(definitions_of(tools, known(tools, names.push(name))) =~= definitions_of(
            tools,
            known(tools, names),
        ).push(tools[name].definition()));
    }
}

/// What went wrong with a call says which tool it was, and ends with the reason where
/// there is one.
pub proof fn a_tool_error_names_its_tool(tool: Seq<char>, reason: Seq<char>)
    ensures
        ({
            let (a, b, c) = (
                ToolErrorView::InvalidArguments { tool, reason }.message(),
                ToolErrorView::NotFound(tool).message(),
                ToolErrorView::Execution { tool, reason }.message(),
            );
            &&& reason.is_suffix_of(a)
            &&& reason.is_suffix_of(c)
            &&& a == "invalid arguments for `"@ + tool + "`: "@ + reason
            &&& b == "unknown tool `"@ + tool + "`"@
            &&& c == "`"@ + tool + "` failed: "@ + reason
        }),
{
    let (a, c) = (
        ToolErrorView::InvalidArguments { tool, reason }.message(),
        ToolErrorView::Execution { tool, reason }.message(),
    );
    assert(reason =~= a.subrange(a.len() - reason.len(), a.len() as int));
    assert(reason =~= c.subrange(c.len() - reason.len(), c.len() as int));
}

/// A finite set of names is listed in dictionary order: each name of it once, and each
/// after those that are less.
pub proof fn names_are_listed_once_and_in_order(set: Set<Seq<char>>, i: int, j: int)
    requires
        set.finite(),
        0 <= i < j < sorted(set).len(),
    ensures
        text_less(sorted(set)[i], sorted(set)[j]),
        sorted(set)[i] != sorted(set)[j],
        set.contains(sorted(set)[i]),
        forall|name: Seq<char>| #[trigger] set.contains(name) ==> sorted(set).contains(name),
{
    sorting_lists_in_order(set);
    let names = sorted(set);
    assert(names.to_set().contains(names[i]));
    if names[i] == names[j] {
        texts_are_in_dictionary_order(names[i], 'a', 'a', Seq::empty(), Seq::empty());
    }
    assert forall|name: Seq<char>| #[trigger] set.contains(name) implies names.contains(name) by {
        assert(names.to_set().contains(name));
    }
}

/// Where nothing is known of the arguments of a tool, its schema asks for an object and
/// says nothing of its members.
pub proof fn an_unknown_schema_asks_for_an_object(member: Seq<char>)
    ensures
        any_object().get("type"@) == Some(JsonView::String("object"@)),
        any_object().get("properties"@) == Some(JsonView::Object(Map::empty())),
        member != "type"@ && member != "properties"@ ==> any_object().get(member) is None,
{
    reveal_strlit("type");
    reveal_strlit("properties");
    assert("type"@.len() == 4 && "properties"@.len() == 10);
}

} // verus!
