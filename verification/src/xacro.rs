//! The expansion engine: properties, macros, conditionals and macro calls
//! resolved in an element tree.

use vstd::prelude::*;
use crate::dict::{lemma_next_name, Duplicate, NameMap};
use crate::document::{copy_optional, copy_pairs, Element, ElementModel, NodeModel, XMLNode};
use crate::eval::{
    asks_cwd, asks_cwd_spec, eval_text, eval_text_spec, get_boolean_value, truth_of, PropertyValue,
};
use crate::text::{collect_text, is_space, is_whitespace, same_text, to_chars};

verus! {

/// The prefix that marks a directive.
pub const XACRO_PREFIX: &'static str = "xacro";

/// How deep macro calls may nest where nothing else is asked for.
pub const DEFAULT_DEPTH: usize = 64;

/// Why an expansion was given up.
#[derive(Clone, Debug, PartialEq, Eq)]
pub enum XacroError {
    /// A directive lacks the attribute of this name.
    MissingAttribute(String),
    /// A call names a macro that has not been defined.
    UnknownMacro(String),
    /// Macro calls nest deeper than the scope allows.
    TooDeep,
    /// A text asks for the working directory, and the scope has none.
    NoWorkingDirectory,
}

/// What an `XacroError` holds.
pub enum ErrorModel {
    MissingAttribute(Seq<char>),
    UnknownMacro(Seq<char>),
    TooDeep,
    NoWorkingDirectory,
}

impl View for XacroError {
    type V = ErrorModel;

    open spec fn view(&self) -> ErrorModel {
        match self {
            XacroError::MissingAttribute(key) => ErrorModel::MissingAttribute(key@),
            XacroError::UnknownMacro(name) => ErrorModel::UnknownMacro(name@),
            XacroError::TooDeep => ErrorModel::TooDeep,
            XacroError::NoWorkingDirectory => ErrorModel::NoWorkingDirectory,
        }
    }
}

/// What an error says to a reader.
pub open spec fn message_of(error: ErrorModel) -> Seq<char> {
    match error {
        ErrorModel::MissingAttribute(key) => "missing attribute: "@ + key,
        ErrorModel::UnknownMacro(name) => "unknown macro: "@ + name,
        ErrorModel::TooDeep => "macro calls are nested too deep"@,
        ErrorModel::NoWorkingDirectory => "the working directory is not known"@,
    }
}

impl XacroError {
    /// What the error says to a reader: its kind, and the attribute or the
    /// macro that it is about.
    pub fn message(&self) -> (text: String)
        ensures
            text@ == message_of(self@),
    {
        match self {
            XacroError::MissingAttribute(key) => {
                let mut text = "missing attribute: ".to_owned();
                text.append(key.as_str());
                text
            },
            XacroError::UnknownMacro(name) => {
                let mut text = "unknown macro: ".to_owned();
                text.append(name.as_str());
                text
            },
            XacroError::TooDeep => "macro calls are nested too deep".to_owned(),
            XacroError::NoWorkingDirectory => "the working directory is not known".to_owned(),
        }
    }
}

/// A macro: its parameters, each with its default if it has one, and the
/// element that defined it, unexpanded.
#[derive(Debug)]
pub struct Macro {
    pub params_map: NameMap<Option<String>>,
    pub body: Element,
}

/// What a `Macro` holds.
pub struct MacroModel {
    pub params: Map<Seq<char>, Option<Seq<char>>>,
    pub body: ElementModel,
}

impl DeepView for Macro {
    type V = MacroModel;

    open spec fn deep_view(&self) -> MacroModel {
        MacroModel { params: self.params_map@, body: self.body@ }
    }
}

impl Duplicate for Macro {
    fn duplicate(&self) -> (copy: Macro) {
        Macro { params_map: self.params_map.duplicate(), body: self.body.duplicate() }
    }
}

/// The bindings in force at a point of the expansion.
pub struct ScopeModel {
    pub properties: Map<Seq<char>, Seq<char>>,
    pub macros: Map<Seq<char>, MacroModel>,
}

/// The scope in which nothing is defined.
pub open spec fn empty_scope() -> ScopeModel {
    ScopeModel { properties: Map::empty(), macros: Map::empty() }
}

/// What a node of the input stands for.
#[derive(Clone, Copy, Debug, PartialEq, Eq, Structural)]
pub enum Directive {
    /// `xacro:property`: defines a property.
    Property,
    /// `xacro:macro`: defines a macro.
    Macro,
    /// `xacro:if`: keeps its children where its condition holds.
    If,
    /// `xacro:unless`: keeps its children where its condition fails.
    Unless,
    /// Any other name under the prefix: a call of that macro.
    Call,
    /// An element without the prefix: it stays.
    Plain,
}

/// What an element with this prefix and name stands for.
pub open spec fn directive_of(prefix: Option<Seq<char>>, name: Seq<char>) -> Directive {
    if prefix != Some(XACRO_PREFIX@) {
        Directive::Plain
    } else if name == "property"@ {
        Directive::Property
    } else if name == "macro"@ {
        Directive::Macro
    } else if name == "if"@ {
        Directive::If
    } else if name == "unless"@ {
        Directive::Unless
    } else {
        Directive::Call
    }
}

/// The value of the first attribute of this name, if there is one.
pub open spec fn attribute(attributes: Seq<(Seq<char>, Seq<char>)>, name: Seq<char>) -> Option<
    Seq<char>,
>
    decreases attributes.len(),
{
    if attributes.len() == 0 {
        None
    } else if attributes[0].0 == name {
        Some(attributes[0].1)
    } else {
        attribute(attributes.drop_first(), name)
    }
}

/// `text` with its spans substituted under `properties`, in a scope that
/// may know the working directory: `None` where the text asks for it and the
/// scope knows none.
pub open spec fn substituted(
    text: Seq<char>,
    properties: Map<Seq<char>, Seq<char>>,
    cwd: Option<Seq<char>>,
) -> Option<Seq<char>> {
    match cwd {
        Some(directory) => Some(eval_text_spec(text, properties, directory)),
        None => if asks_cwd_spec(text, properties) {
            None
        } else {
            Some(eval_text_spec(text, properties, Seq::empty()))
        },
    }
}

/// Whether a condition holds: whether `text`, substituted, evaluates to
/// true. `None` where it asks for a working directory that is not known.
pub open spec fn condition(
    text: Seq<char>,
    properties: Map<Seq<char>, Seq<char>>,
    cwd: Option<Seq<char>>,
) -> Option<bool> {
    match substituted(text, properties, cwd) {
        Some(resolved) => Some(truth_of(resolved)),
        None => None,
    }
}

/// The attributes with each value substituted under `properties`: `None`
/// where one of them asks for a working directory that is not known.
pub open spec fn evaluated(
    attributes: Seq<(Seq<char>, Seq<char>)>,
    properties: Map<Seq<char>, Seq<char>>,
    cwd: Option<Seq<char>>,
) -> Option<Seq<(Seq<char>, Seq<char>)>> {
    if forall|i: int|
        0 <= i < attributes.len() ==> (#[trigger] substituted(attributes[i].1, properties, cwd))
            is Some {
        Some(
            Seq::new(
                attributes.len(),
                |i: int| (attributes[i].0, substituted(attributes[i].1, properties, cwd).unwrap()),
            ),
        )
    } else {
        None
    }
}

/// The first index at or after `from` that holds no white space, or the
/// length of `s`.
pub open spec fn word_start(s: Seq<char>, from: int) -> int
    decreases s.len() - from,
{
    if from < 0 || from >= s.len() {
        s.len() as int
    } else if !is_space(s[from]) {
        from
    } else {
        word_start(s, from + 1)
    }
}

/// The first index at or after `from` that holds white space, or the length
/// of `s`.
pub open spec fn word_end(s: Seq<char>, from: int) -> int
    decreases s.len() - from,
{
    if from < 0 || from >= s.len() {
        s.len() as int
    } else if is_space(s[from]) {
        from
    } else {
        word_end(s, from + 1)
    }
}

/// The first index at or after `from` at which `:=` stands in `word`, or
/// the length of `word`.
pub open spec fn assign_at(word: Seq<char>, from: int) -> int
    decreases word.len() - from,
{
    if from < 0 || from >= word.len() {
        word.len() as int
    } else if word[from] == ':' && from + 1 < word.len() && word[from + 1] == '=' {
        from
    } else {
        assign_at(word, from + 1)
    }
}

/// The name of the parameter that `word` declares: what stands before its
/// first `:=`.
pub open spec fn param_name(word: Seq<char>) -> Seq<char> {
    word.subrange(0, assign_at(word, 0))
}

/// The default of the parameter that `word` declares: what stands behind its
/// first `:=`, if it has one.
pub open spec fn param_default(word: Seq<char>) -> Option<Seq<char>> {
    if assign_at(word, 0) < word.len() {
        Some(word.subrange(assign_at(word, 0) + 2, word.len() as int))
    } else {
        None
    }
}

/// `params` with the parameters that the words of `s` from `pos` on
/// declare, a later word in place of an earlier one of the same name.
pub open spec fn params_from(
    s: Seq<char>,
    pos: int,
    params: Map<Seq<char>, Option<Seq<char>>>,
) -> Map<Seq<char>, Option<Seq<char>>>
    decreases s.len() - pos,
    when 0 <= pos
    via params_from_decreases
{
    let start = word_start(s, pos);
    if start >= s.len() {
        params
    } else {
        let word = s.subrange(start, word_end(s, start));
        params_from(s, word_end(s, start), params.insert(param_name(word), param_default(word)))
    }
}

#[via_fn]
proof fn params_from_decreases(s: Seq<char>, pos: int, params: Map<Seq<char>, Option<Seq<char>>>) {
    if pos < s.len() {
        lemma_word_start(s, pos);
        let start = word_start(s, pos);
        if start < s.len() {
            lemma_word_end(s, start);
        }
    }
}

/// The parameters that a `params` attribute declares.
pub open spec fn params_of(s: Seq<char>) -> Map<Seq<char>, Option<Seq<char>>> {
    params_from(s, 0, Map::empty())
}

/// `word_start` stays within the text and lands on no white space.
pub proof fn lemma_word_start(s: Seq<char>, from: int)
    requires
        0 <= from <= s.len(),
    ensures
        from <= word_start(s, from) <= s.len(),
        word_start(s, from) < s.len() ==> !is_space(s[word_start(s, from)]),
    decreases s.len() - from,
{
    if from < s.len() && is_space(s[from]) {
        lemma_word_start(s, from + 1);
    }
}

/// `word_end` stays within the text, and lies behind `from` where a word
/// begins there.
pub proof fn lemma_word_end(s: Seq<char>, from: int)
    requires
        0 <= from <= s.len(),
    ensures
        from <= word_end(s, from) <= s.len(),
        from < s.len() && !is_space(s[from]) ==> from < word_end(s, from),
    decreases s.len() - from,
{
    if from < s.len() && !is_space(s[from]) {
        lemma_word_end(s, from + 1);
    }
}

/// `assign_at` stays within the word, and `:=` fits where it lands.
pub proof fn lemma_assign_at(word: Seq<char>, from: int)
    requires
        0 <= from <= word.len(),
    ensures
        from <= assign_at(word, from) <= word.len(),
        assign_at(word, from) < word.len() ==> assign_at(word, from) + 2 <= word.len(),
    decreases word.len() - from,
{
    if from < word.len() && !(word[from] == ':' && from + 1 < word.len() && word[from + 1]
        == '=') {
        lemma_assign_at(word, from + 1);
    }
}

/// The properties of the scope in which a macro's body is expanded: those of
/// the caller, and each parameter bound to the attribute of its name at the
/// call, or else to its default, substituted under the caller's properties.
/// A parameter with neither is left as the caller has it. `None` where an
/// argument asks for a working directory that is not known.
pub open spec fn bound_arguments(
    params: Map<Seq<char>, Option<Seq<char>>>,
    attributes: Seq<(Seq<char>, Seq<char>)>,
    caller: Map<Seq<char>, Seq<char>>,
    cwd: Option<Seq<char>>,
) -> Option<Map<Seq<char>, Seq<char>>> {
    if arguments_substituted(params, attributes, caller, cwd) {
        Some(bound_map(params, attributes, caller, cwd))
    } else {
        None
    }
}

/// Whether every argument of the call can be substituted.
pub open spec fn arguments_substituted(
    params: Map<Seq<char>, Option<Seq<char>>>,
    attributes: Seq<(Seq<char>, Seq<char>)>,
    caller: Map<Seq<char>, Seq<char>>,
    cwd: Option<Seq<char>>,
) -> bool {
    forall|name: Seq<char>| #[trigger]
        is_bound(params, attributes, name) ==> substituted(
            argument(params, attributes, name),
            caller,
            cwd,
        ) is Some
}

/// The properties of the caller with the arguments of the call, each
/// substituted.
pub open spec fn bound_map(
    params: Map<Seq<char>, Option<Seq<char>>>,
    attributes: Seq<(Seq<char>, Seq<char>)>,
    caller: Map<Seq<char>, Seq<char>>,
    cwd: Option<Seq<char>>,
) -> Map<Seq<char>, Seq<char>> {
    Map::new(
        |name: Seq<char>| caller.contains_key(name) || is_bound(params, attributes, name),
        |name: Seq<char>|
            if is_bound(params, attributes, name) {
                substituted(argument(params, attributes, name), caller, cwd).unwrap()
            } else {
                caller[name]
            },
    )
}

/// Whether the call binds the parameter `name`.
pub open spec fn is_bound(
    params: Map<Seq<char>, Option<Seq<char>>>,
    attributes: Seq<(Seq<char>, Seq<char>)>,
    name: Seq<char>,
) -> bool {
    params.contains_key(name) && (attribute(attributes, name) is Some || params[name] is Some)
}

/// The text that the parameter `name` is bound from: the attribute of the
/// call before the default.
pub open spec fn argument(
    params: Map<Seq<char>, Option<Seq<char>>>,
    attributes: Seq<(Seq<char>, Seq<char>)>,
    name: Seq<char>,
) -> Seq<char> {
    match attribute(attributes, name) {
        Some(given) => given,
        None => params[name].unwrap(),
    }
}

/// Where an expansion ends: the scope behind it, and the nodes it gave or
/// why it was given up.
pub type Expanded = (ScopeModel, Result<Seq<NodeModel>, ErrorModel>);

/// `rest` with `first` in front of its nodes.
pub open spec fn prepend(first: Seq<NodeModel>, rest: Expanded) -> Expanded {
    (
        rest.0,
        match rest.1 {
            Ok(nodes) => Ok(first + nodes),
            Err(error) => Err(error),
        },
    )
}

/// The expansion of an element, itself kept: its attributes substituted
/// under the scope at entry if it has no prefix, and its children expanded in
/// order. It fails where an attribute asks for a working directory that is
/// not known, and where the expansion of a child fails.
pub open spec fn expand_element(
    e: ElementModel,
    scope: ScopeModel,
    cwd: Option<Seq<char>>,
    depth: nat,
) -> (ScopeModel, Result<ElementModel, ErrorModel>)
    decreases depth, e, 0int,
{
    let attributes = if e.prefix is None {
        evaluated(e.attributes, scope.properties, cwd)
    } else {
        Some(e.attributes)
    };
    match attributes {
        None => (scope, Err(ErrorModel::NoWorkingDirectory)),
        Some(attributes) => {
            let below = expand_children(e.children, 0, scope, cwd, depth);
            (
                below.0,
                match below.1 {
                    Ok(children) => Ok(
                        ElementModel {
                            prefix: e.prefix,
                            namespace: e.namespace,
                            namespaces: e.namespaces,
                            name: e.name,
                            attributes,
                            children,
                        },
                    ),
                    Err(error) => Err(error),
                },
            )
        },
    }
}

/// The expansion of the nodes from `i` on, each in the scope that the one
/// before it left. The first failure ends it.
pub open spec fn expand_children(
    nodes: Seq<NodeModel>,
    i: int,
    scope: ScopeModel,
    cwd: Option<Seq<char>>,
    depth: nat,
) -> Expanded
    decreases depth, nodes, nodes.len() - i,
{
    if i < 0 || i >= nodes.len() {
        (scope, Ok(Seq::empty()))
    } else {
        let first = expand_node(nodes[i], scope, cwd, depth);
        match first.1 {
            Ok(pieces) => prepend(pieces, expand_children(nodes, i + 1, first.0, cwd, depth)),
            Err(error) => first,
        }
    }
}

/// The children of an expanded element in place of the element.
pub open spec fn spliced(inner: (ScopeModel, Result<ElementModel, ErrorModel>)) -> Expanded {
    (
        inner.0,
        match inner.1 {
            Ok(element) => Ok(element.children),
            Err(error) => Err(error),
        },
    )
}

/// The expansion of one node: what stands in its place, and the scope behind
/// it. A directive gives what it resolves to, another element itself,
/// expanded. Text and character data stay in their place with their spans
/// substituted under the scope; a comment or a processing instruction stays
/// as it is.
pub open spec fn expand_node(
    node: NodeModel,
    scope: ScopeModel,
    cwd: Option<Seq<char>>,
    depth: nat,
) -> Expanded
    decreases depth, node, 0int,
{
    match node {
        NodeModel::Element(e) => match directive_of(e.prefix, e.name) {
            Directive::Property => match (
                attribute(e.attributes, "name"@),
                attribute(e.attributes, "value"@),
            ) {
                (None, _) => (scope, Err(ErrorModel::MissingAttribute("name"@))),
                (Some(_), None) => (scope, Err(ErrorModel::MissingAttribute("value"@))),
                (Some(name), Some(value)) => match substituted(value, scope.properties, cwd) {
                    None => (scope, Err(ErrorModel::NoWorkingDirectory)),
                    Some(resolved) => (
                        ScopeModel {
                            properties: scope.properties.insert(name, resolved),
                            macros: scope.macros,
                        },
                        Ok(Seq::empty()),
                    ),
                },
            },
            Directive::Macro => match (
                attribute(e.attributes, "name"@),
                attribute(e.attributes, "params"@),
            ) {
                (None, _) => (scope, Err(ErrorModel::MissingAttribute("name"@))),
                (Some(_), None) => (scope, Err(ErrorModel::MissingAttribute("params"@))),
                (Some(name), Some(params)) => (
                    ScopeModel {
                        properties: scope.properties,
                        macros: scope.macros.insert(
                            name,
                            MacroModel { params: params_of(params), body: e },
                        ),
                    },
                    Ok(Seq::empty()),
                ),
            },
            Directive::If => match attribute(e.attributes, "value"@) {
                None => (scope, Err(ErrorModel::MissingAttribute("value"@))),
                Some(value) => match condition(value, scope.properties, cwd) {
                    None => (scope, Err(ErrorModel::NoWorkingDirectory)),
                    Some(true) => spliced(expand_element(e, scope, cwd, depth)),
                    Some(false) => (scope, Ok(Seq::empty())),
                },
            },
            Directive::Unless => match attribute(e.attributes, "value"@) {
                None => (scope, Err(ErrorModel::MissingAttribute("value"@))),
                Some(value) => match condition(value, scope.properties, cwd) {
                    None => (scope, Err(ErrorModel::NoWorkingDirectory)),
                    Some(false) => spliced(expand_element(e, scope, cwd, depth)),
                    Some(true) => (scope, Ok(Seq::empty())),
                },
            },
            Directive::Call => (scope, expand_call(e, e.name, scope, cwd, depth)),
            Directive::Plain => {
                let inner = expand_element(e, scope, cwd, depth);
                (
                    inner.0,
                    match inner.1 {
                        Ok(element) => Ok(seq![NodeModel::Element(element)]),
                        Err(error) => Err(error),
                    },
                )
            },
        },
        NodeModel::Text(text) => match substituted(text, scope.properties, cwd) {
            None => (scope, Err(ErrorModel::NoWorkingDirectory)),
            Some(resolved) => (scope, Ok(seq![NodeModel::Text(resolved)])),
        },
        NodeModel::CData(text) => match substituted(text, scope.properties, cwd) {
            None => (scope, Err(ErrorModel::NoWorkingDirectory)),
            Some(resolved) => (scope, Ok(seq![NodeModel::CData(resolved)])),
        },
        NodeModel::Comment(_) => (scope, Ok(seq![node])),
        NodeModel::ProcessingInstruction(_, _) => (scope, Ok(seq![node])),
    }
}

/// The expansion of the call `e` of the macro `name`: the children of the
/// macro's body, expanded in a scope of its own, which holds what the
/// caller's holds and the arguments. It fails where the scope knows no such
/// macro, where calls are already nested as deep as they may be, and where
/// an argument asks for a working directory that is not known.
pub open spec fn expand_call(
    e: ElementModel,
    name: Seq<char>,
    scope: ScopeModel,
    cwd: Option<Seq<char>>,
    depth: nat,
) -> Result<Seq<NodeModel>, ErrorModel>
    decreases depth, e, 0int,
{
    if !scope.macros.contains_key(name) {
        Err(ErrorModel::UnknownMacro(name))
    } else if depth == 0 {
        Err(ErrorModel::TooDeep)
    } else {
        let called = scope.macros[name];
        match bound_arguments(called.params, e.attributes, scope.properties, cwd) {
            None => Err(ErrorModel::NoWorkingDirectory),
            Some(properties) => spliced(
                expand_element(
                    called.body,
                    ScopeModel { properties, macros: scope.macros },
                    cwd,
                    (depth - 1) as nat,
                ),
            ).1,
        }
    }
}

/// What `element` stands for where it is met as a child.
pub fn classify(element: &Element) -> (directive: Directive)
    ensures
        directive == directive_of(element@.prefix, element@.name),
{
    let prefixed: bool = match &element.prefix {
        Some(prefix) => same_text(prefix.as_str(), XACRO_PREFIX),
        None => false,
    };
    let name = element.name.as_str();
    if !prefixed {
        Directive::Plain
    } else if same_text(name, "property") {
        Directive::Property
    } else if same_text(name, "macro") {
        Directive::Macro
    } else if same_text(name, "if") {
        Directive::If
    } else if same_text(name, "unless") {
        Directive::Unless
    } else {
        Directive::Call
    }
}

/// The value of the first attribute of this name, if there is one.
pub fn find_attribute<'a>(attributes: &'a Vec<(String, String)>, name: &str) -> (found: Option<
    &'a String,
>)
    ensures
        found.deep_view() == attribute(attributes.deep_view(), name@),
{
    let mut i: usize = 0;
    assert(attributes.deep_view().skip(0) =~= attributes.deep_view());
    while i < attributes.len()
        invariant
            i <= attributes@.len(),
            attribute(attributes.deep_view(), name@) == attribute(
                attributes.deep_view().skip(i as int),
                name@,
            ),
        decreases attributes@.len() - i,
    {
        let ghost rest = attributes.deep_view().skip(i as int);
        assert(rest[0] == attributes@[i as int].deep_view());
        assert(rest.drop_first() =~= attributes.deep_view().skip(i + 1));
        if same_text(attributes[i].0.as_str(), name) {
            return Some(&attributes[i].1);
        }
        i = i + 1;
    }
    assert(attributes.deep_view().skip(i as int).len() == 0);
    None
}

/// `text` with its spans substituted under `properties`: `None` where it
/// asks for the working directory and `cwd` holds none.
pub fn substitute(text: &str, properties: &NameMap<PropertyValue>, cwd: &Option<String>) -> (out:
    Option<String>)
    ensures
        out.deep_view() == substituted(text@, properties@, cwd.deep_view()),
{
    match cwd {
        Some(directory) => Some(eval_text(text, properties, directory.as_str())),
        None => {
            if asks_cwd(text, properties) {
                None
            } else {
                proof {
                    reveal_strlit("");
                    assert(""@ =~= Seq::<char>::empty());
                }
                Some(eval_text(text, properties, ""))
            }
        },
    }
}

/// Whether the condition `text` holds: `None` where it asks for the working
/// directory and `cwd` holds none.
pub fn check_condition(
    text: &str,
    properties: &NameMap<PropertyValue>,
    cwd: &Option<String>,
) -> (out: Option<bool>)
    ensures
        out == condition(text@, properties@, cwd.deep_view()),
{
    match cwd {
        Some(directory) => Some(get_boolean_value(text, properties, directory.as_str())),
        None => {
            if asks_cwd(text, properties) {
                None
            } else {
                proof {
                    reveal_strlit("");
                    assert(""@ =~= Seq::<char>::empty());
                }
                Some(get_boolean_value(text, properties, ""))
            }
        },
    }
}

/// The attributes with each value substituted under `properties`: `None`
/// where one of them asks for the working directory and `cwd` holds none.
pub fn evaluate_attributes(
    attributes: &Vec<(String, String)>,
    properties: &NameMap<PropertyValue>,
    cwd: &Option<String>,
) -> (out: Option<Vec<(String, String)>>)
    ensures
        out.deep_view() == evaluated(attributes.deep_view(), properties@, cwd.deep_view()),
{
    let ghost given = attributes.deep_view();
    let mut out: Vec<(String, String)> = Vec::new();
    let mut i: usize = 0;
    while i < attributes.len()
        invariant
            i <= attributes@.len(),
            given == attributes.deep_view(),
            out@.len() == i,
            forall|k: int|
                0 <= k < i ==> (#[trigger] substituted(
                    given[k].1,
                    properties@,
                    cwd.deep_view(),
                )) is Some,
            forall|k: int|
                0 <= k < i ==> out@[k].deep_view() == (
                    given[k].0,
                    substituted(given[k].1, properties@, cwd.deep_view()).unwrap(),
                ),
        decreases attributes@.len() - i,
    {
        assert(given[i as int] == attributes@[i as int].deep_view());
        match substitute(attributes[i].1.as_str(), properties, cwd) {
            Some(value) => {
                out.push((attributes[i].0.clone(), value));
            },
            None => {
                assert(substituted(given[i as int].1, properties@, cwd.deep_view()) is None);
                return None;
            },
        }
        i = i + 1;
    }
    assert(out.deep_view() =~= evaluated(given, properties@, cwd.deep_view()).unwrap());
    Some(out)
}

/// What the expansion of an element gave, as the model has it.
pub open spec fn element_outcome(out: Result<Element, XacroError>) -> Result<
    ElementModel,
    ErrorModel,
> {
    match out {
        Ok(element) => Ok(element@),
        Err(error) => Err(error@),
    }
}

/// What the expansion of a node gave, as the model has it.
pub open spec fn nodes_outcome(out: Result<Vec<XMLNode>, XacroError>) -> Result<
    Seq<NodeModel>,
    ErrorModel,
> {
    match out {
        Ok(nodes) => Ok(nodes.deep_view()),
        Err(error) => Err(error@),
    }
}

/// The children of an element are modelled one by one.
pub proof fn lemma_children_model(element: Element)
    ensures
        element@.children == element.children.deep_view(),
        element@.attributes == element.attributes.deep_view(),
{
    assert(element@.children =~= element.children.deep_view());
}

/// No nodes: what a directive leaves that only changes the scope.
fn no_nodes() -> (out: Vec<XMLNode>)
    ensures
        out.deep_view() == Seq::<NodeModel>::empty(),
{
    let out: Vec<XMLNode> = Vec::new();
    assert(out.deep_view() =~= Seq::<NodeModel>::empty());
    out
}

/// The one node: what a node leaves that stays in its place.
fn one_node(node: XMLNode) -> (out: Vec<XMLNode>)
    ensures
        out.deep_view() == seq![node@],
{
    let mut out: Vec<XMLNode> = Vec::new();
    out.push(node);
    assert(out.deep_view() =~= seq![node@]);
    out
}

/// The scope of an expansion: the properties and the macros that are
/// defined, the working directory if it is known, and how deep macro calls
/// may still nest.
#[derive(Debug)]
pub struct Context {
    pub properties: NameMap<PropertyValue>,
    pub macros: NameMap<Macro>,
    pub cwd: Option<String>,
    pub depth: usize,
}

impl View for Context {
    type V = ScopeModel;

    open spec fn view(&self) -> ScopeModel {
        ScopeModel { properties: self.properties@, macros: self.macros@ }
    }
}

impl Context {
    /// A scope without properties and macros, in which calls may nest
    /// `DEFAULT_DEPTH` deep.
    pub fn new(cwd: Option<&str>) -> (context: Context)
        ensures
            context@ == empty_scope(),
            context.cwd.deep_view() == cwd.deep_view(),
            context.depth == DEFAULT_DEPTH,
    {
        Context {
            properties: NameMap::new(),
            macros: NameMap::new(),
            cwd: match cwd {
                Some(directory) => Some(directory.to_owned()),
                None => None,
            },
            depth: DEFAULT_DEPTH,
        }
    }

    /// The parameters that a `params` attribute declares: its words, each a name
    /// or a name, `:=` and a default.
    pub fn parse_macro_args(s: &str) -> (params: NameMap<Option<String>>)
        ensures
            params@ == params_of(s@),
    {
        let chars = to_chars(s);
        let n: usize = chars.len();
        let mut params: NameMap<Option<String>> = NameMap::new();
        let mut pos: usize = 0;
        loop
            invariant
                chars@ == s@,
                n == chars@.len(),
                pos <= n,
                params_from(s@, pos as int, params@) == params_of(s@),
            ensures
                params@ == params_of(s@),
            decreases n - pos,
        {
            let mut start: usize = pos;
            while start < n && is_whitespace(chars[start])
                invariant
                    pos <= start <= n == chars@.len(),
                    word_start(chars@, pos as int) == word_start(chars@, start as int),
                decreases n - start,
            {
                start = start + 1;
            }
            if start >= n {
                break ;
            }
            let mut end: usize = start;
            while end < n && !is_whitespace(chars[end])
                invariant
                    start <= end <= n == chars@.len(),
                    word_end(chars@, start as int) == word_end(chars@, end as int),
                decreases n - end,
            {
                end = end + 1;
            }
            let ghost word = chars@.subrange(start as int, end as int);
            let mut split: usize = start;
            while split < end && !(chars[split] == ':' && split + 1 < end && chars[split + 1] == '=')
                invariant
                    start <= split <= end <= n == chars@.len(),
                    word == chars@.subrange(start as int, end as int),
                    assign_at(word, 0) == assign_at(word, split - start),
                decreases end - split,
            {
                split = split + 1;
            }
            proof {
                lemma_word_end(chars@, start as int);
                lemma_assign_at(word, 0);
                assert(word.subrange(0, split - start) =~= chars@.subrange(start as int, split as int));
                if split < end {
                    assert(word.subrange(split - start + 2, word.len() as int) =~= chars@.subrange(
                        split + 2,
                        end as int,
                    ));
                }
            }
            let key = collect_text(&chars, start, split);
            let default: Option<String> = if split < end {
                Some(collect_text(&chars, split + 2, end))
            } else {
                None
            };
            params.insert(key, default);
            pos = end;
        }
        params
    }

    /// Expands `elem`: the element with its attributes substituted, if it
    /// has no prefix, and with its children expanded. The scope goes on as
    /// the children leave it. The first failure ends the expansion: a
    /// directive without an attribute that it needs, a call of an unknown
    /// macro, calls nested too deep, or a text that asks for a working
    /// directory that the scope does not know.
    #[verifier::loop_isolation(false)]
    pub fn parse_and_write_xacro(&mut self, elem: &Element) -> (out: Result<Element, XacroError>)
        ensures
            final(self).cwd.deep_view() == old(self).cwd.deep_view(),
            final(self).depth == old(self).depth,
            final(self)@ == expand_element(
                elem@,
                old(self)@,
                old(self).cwd.deep_view(),
                old(self).depth as nat,
            ).0,
            element_outcome(out) == expand_element(
                elem@,
                old(self)@,
                old(self).cwd.deep_view(),
                old(self).depth as nat,
            ).1,
        decreases old(self).depth, elem, 0int,
    {
        let ghost cwd = self.cwd.deep_view();
        let ghost depth = self.depth as nat;
        let ghost nodes = elem@.children;
        let ghost whole = expand_children(nodes, 0, self@, cwd, depth);
        proof {
            lemma_children_model(*elem);
        }
        let attributes = if elem.prefix.is_none() {
            match evaluate_attributes(&elem.attributes, &self.properties, &self.cwd) {
                Some(attributes) => attributes,
                None => {
                    return Err(XacroError::NoWorkingDirectory);
                },
            }
        } else {
            copy_pairs(&elem.attributes)
        };
        let mut children: Vec<XMLNode> = Vec::new();
        let mut i: usize = 0;
        assert(prepend(children.deep_view(), whole) == whole) by {
            assert(whole.1 is Ok ==> children.deep_view() + whole.1->Ok_0 =~= whole.1->Ok_0);
        }
        while i < elem.children.len()
            invariant
                i <= elem.children@.len(),
                nodes == elem@.children,
                nodes == elem.children.deep_view(),
                self.cwd.deep_view() == cwd,
                self.depth as nat == depth,
                depth == old(self).depth,
                whole == prepend(
                    children.deep_view(),
                    expand_children(nodes, i as int, self@, cwd, depth),
                ),
            decreases elem.children@.len() - i,
        {
            let ghost done = children.deep_view();
            match self.expand_node(&elem.children[i]) {
                Ok(mut pieces) => {
                    let ghost added = pieces.deep_view();
                    children.append(&mut pieces);
                    proof {
                        assert(children.deep_view() =~= done + added);
                        let rest = expand_children(nodes, i + 1, self@, cwd, depth);
                        assert(prepend(done, prepend(added, rest)) == prepend(done + added, rest))
                            by {
                            if rest.1 is Ok {
                                assert(done + (added + rest.1->Ok_0) =~= (done + added)
                                    + rest.1->Ok_0);
                            }
                        }
                    }
                },
                Err(error) => {
                    return Err(error);
                },
            }
            i = i + 1;
        }
        proof {
            assert(children.deep_view() + Seq::<NodeModel>::empty() =~= children.deep_view());
        }
        let out = Element {
            prefix: copy_optional(&elem.prefix),
            namespace: copy_optional(&elem.namespace),
            namespaces: match &elem.namespaces {
                Some(declared) => Some(copy_pairs(declared)),
                None => None,
            },
            name: elem.name.clone(),
            attributes,
            children,
        };
        proof {
            lemma_children_model(out);
        }
        Ok(out)
    }

    /// Expands one node: what is to stand in its place. A property or a
    /// macro is taken into the scope and leaves nothing; a conditional leaves
    /// its expanded children or nothing; a call leaves what the macro's body
    /// expands to; another element leaves itself, expanded. Text and
    /// character data leave themselves with their spans substituted, a
    /// comment or a processing instruction itself as it is.
    pub fn expand_node(&mut self, node: &XMLNode) -> (out: Result<Vec<XMLNode>, XacroError>)
        ensures
            final(self).cwd.deep_view() == old(self).cwd.deep_view(),
            final(self).depth == old(self).depth,
            final(self)@ == expand_node(
                node@,
                old(self)@,
                old(self).cwd.deep_view(),
                old(self).depth as nat,
            ).0,
            nodes_outcome(out) == expand_node(
                node@,
                old(self)@,
                old(self).cwd.deep_view(),
                old(self).depth as nat,
            ).1,
        decreases old(self).depth, node, 0int,
    {
        match node {
            XMLNode::Element(element) => {
                proof {
                    lemma_children_model(*element);
                }
                match classify(element) {
                    Directive::Property => {
                        let name = match find_attribute(&element.attributes, "name") {
                            Some(name) => name,
                            None => {
                                return Err(XacroError::MissingAttribute("name".to_owned()));
                            },
                        };
                        let value = match find_attribute(&element.attributes, "value") {
                            Some(value) => value,
                            None => {
                                return Err(XacroError::MissingAttribute("value".to_owned()));
                            },
                        };
                        let raw_value = match substitute(
                            value.as_str(),
                            &self.properties,
                            &self.cwd,
                        ) {
                            Some(resolved) => resolved,
                            None => {
                                return Err(XacroError::NoWorkingDirectory);
                            },
                        };
                        self.properties.insert(name.clone(), PropertyValue { raw_value });
                        Ok(no_nodes())
                    },
                    Directive::Macro => {
                        let name = match find_attribute(&element.attributes, "name") {
                            Some(name) => name,
                            None => {
                                return Err(XacroError::MissingAttribute("name".to_owned()));
                            },
                        };
                        let params = match find_attribute(&element.attributes, "params") {
                            Some(params) => params,
                            None => {
                                return Err(XacroError::MissingAttribute("params".to_owned()));
                            },
                        };
                        let defined = Macro {
                            params_map: Context::parse_macro_args(params.as_str()),
                            body: element.duplicate(),
                        };
                        self.macros.insert(name.clone(), defined);
                        Ok(no_nodes())
                    },
                    Directive::If => {
                        let value = match find_attribute(&element.attributes, "value") {
                            Some(value) => value,
                            None => {
                                return Err(XacroError::MissingAttribute("value".to_owned()));
                            },
                        };
                        match check_condition(value.as_str(), &self.properties, &self.cwd) {
                            None => Err(XacroError::NoWorkingDirectory),
                            Some(true) => self.expand_inside(element),
                            Some(false) => Ok(no_nodes()),
                        }
                    },
                    Directive::Unless => {
                        let value = match find_attribute(&element.attributes, "value") {
                            Some(value) => value,
                            None => {
                                return Err(XacroError::MissingAttribute("value".to_owned()));
                            },
                        };
                        match check_condition(value.as_str(), &self.properties, &self.cwd) {
                            None => Err(XacroError::NoWorkingDirectory),
                            Some(false) => self.expand_inside(element),
                            Some(true) => Ok(no_nodes()),
                        }
                    },
                    Directive::Call => self.handle_macro_call(element, element.name.as_str()),
                    Directive::Plain => match self.parse_and_write_xacro(element) {
                        Ok(expanded) => Ok(one_node(XMLNode::Element(expanded))),
                        Err(error) => Err(error),
                    },
                }
            },
            XMLNode::Text(text) => match substitute(text.as_str(), &self.properties, &self.cwd) {
                Some(resolved) => Ok(one_node(XMLNode::Text(resolved))),
                None => Err(XacroError::NoWorkingDirectory),
            },
            XMLNode::CData(text) => match substitute(text.as_str(), &self.properties, &self.cwd) {
                Some(resolved) => Ok(one_node(XMLNode::CData(resolved))),
                None => Err(XacroError::NoWorkingDirectory),
            },
            XMLNode::Comment(_) => Ok(one_node(node.duplicate())),
            XMLNode::ProcessingInstruction(_, _) => Ok(one_node(node.duplicate())),
        }
    }

    /// The expanded children of `element`, without the element.
    fn expand_inside(&mut self, element: &Element) -> (out: Result<Vec<XMLNode>, XacroError>)
        ensures
            final(self).cwd.deep_view() == old(self).cwd.deep_view(),
            final(self).depth == old(self).depth,
            (final(self)@, nodes_outcome(out)) == spliced(
                expand_element(element@, old(self)@, old(self).cwd.deep_view(), old(self).depth as nat),
            ),
        decreases old(self).depth, element, 1int,
    {
        match self.parse_and_write_xacro(element) {
            Ok(expanded) => {
                proof {
                    lemma_children_model(expanded);
                }
                Ok(expanded.children)
            },
            Err(error) => Err(error),
        }
    }

    /// Expands the call `node` of the macro `name`: the macro's body in a
    /// scope of its own, which holds a copy of what this one holds and the
    /// arguments of the call. This scope stays as it is.
    #[verifier::loop_isolation(false)]
    pub fn handle_macro_call(&self, node: &Element, name: &str) -> (out: Result<
        Vec<XMLNode>,
        XacroError,
    >)
        ensures
            nodes_outcome(out) == expand_call(
                node@,
                name@,
                self@,
                self.cwd.deep_view(),
                self.depth as nat,
            ),
        decreases self.depth, node, 0int,
    {
        let this_macro = match self.macros.get(name) {
            Some(found) => found,
            None => {
                return Err(XacroError::UnknownMacro(name.to_owned()));
            },
        };
        if self.depth == 0 {
            return Err(XacroError::TooDeep);
        }
        let mut local_context = Context {
            properties: self.properties.duplicate(),
            macros: self.macros.duplicate(),
            cwd: copy_optional(&self.cwd),
            depth: self.depth - 1,
        };
        let ghost params = this_macro.params_map@;
        let ghost names = this_macro.params_map.names();
        let ghost attributes = node@.attributes;
        let ghost caller = self@.properties;
        let ghost cwd = self.cwd.deep_view();
        proof {
            lemma_children_model(*node);
        }
        let n: usize = this_macro.params_map.len();
        let mut i: usize = 0;
        assert(local_context.properties@ =~= bound_map(
            params.restrict(names.take(0).to_set()),
            attributes,
            caller,
            cwd,
        ));
        while i < n
            invariant
                i <= n == names.len(),
                names == this_macro.params_map.names(),
                params == this_macro.params_map@,
                attributes == node.attributes.deep_view(),
                caller == self@.properties,
                cwd == self.cwd.deep_view(),
                names.no_duplicates(),
                forall|name: Seq<char>| params.contains_key(name) <==> names.contains(name),
                local_context.macros@ == self.macros@,
                local_context.cwd.deep_view() == cwd,
                local_context.depth == self.depth - 1,
                arguments_substituted(
                    params.restrict(names.take(i as int).to_set()),
                    attributes,
                    caller,
                    cwd,
                ),
                local_context.properties@ == bound_map(
                    params.restrict(names.take(i as int).to_set()),
                    attributes,
                    caller,
                    cwd,
                ),
            decreases n - i,
        {
            let key = this_macro.params_map.name_at(i);
            let default = this_macro.params_map.value_at(i);
            let given: Option<&String> = match find_attribute(&node.attributes, key.as_str()) {
                Some(value) => Some(value),
                None => match default {
                    Some(value) => Some(value),
                    None => None,
                },
            };
            proof {
                let k = names[i as int];
                assert(names.contains(k)) by {
                    assert(names[i as int] == k);
                }
            }
            match given {
                Some(value) => {
                    match substitute(value.as_str(), &self.properties, &self.cwd) {
                        Some(raw_value) => {
                            local_context.properties.insert(
                                key.clone(),
                                PropertyValue { raw_value },
                            );
                        },
                        None => {
                            assert(is_bound(params, attributes, names[i as int]));
                            assert(argument(params, attributes, names[i as int]) == value@);
                            assert(!arguments_substituted(params, attributes, caller, cwd));
                            return Err(XacroError::NoWorkingDirectory);
                        },
                    }
                },
                None => {},
            }
            proof {
                let k = names[i as int];
                let earlier = params.restrict(names.take(i as int).to_set());
                let later = params.restrict(names.take(i + 1).to_set());
                lemma_next_name(names, i as int);
                assert forall|x: Seq<char>| x != k implies is_bound(later, attributes, x)
                    == is_bound(earlier, attributes, x) && (is_bound(later, attributes, x)
                    ==> argument(later, attributes, x) == argument(earlier, attributes, x)) by {}
                assert(!is_bound(earlier, attributes, k));
                assert(later.contains_key(k) && later[k] == params[k]);
                assert(substituted(argument(later, attributes, k), caller, cwd) is Some
                    || !is_bound(later, attributes, k));
                assert(arguments_substituted(later, attributes, caller, cwd));
                assert(local_context.properties@ =~= bound_map(later, attributes, caller, cwd));
            }
            i = i + 1;
        }
        proof {
            assert(names.take(n as int) =~= names);
            assert(params.restrict(names.to_set()) =~= params);
        }
        match local_context.parse_and_write_xacro(&this_macro.body) {
            Ok(expanded) => {
                proof {
                    lemma_children_model(expanded);
                }
                Ok(expanded.children)
            },
            Err(error) => Err(error),
        }
    }
}

/// Expands the document below `root` in a fresh scope, with `cwd` as the
/// working directory if it is known.
pub fn parse_xacro(root: &Element, cwd: Option<&str>) -> (out: Result<Element, XacroError>)
    ensures
        element_outcome(out) == expand_element(
            root@,
            empty_scope(),
            cwd.deep_view(),
            DEFAULT_DEPTH as nat,
        ).1,
{
    let mut context = Context::new(cwd);
    context.parse_and_write_xacro(root)
}

} // verus!
