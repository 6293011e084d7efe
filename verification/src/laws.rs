//! What holds of every expansion.

use vstd::prelude::*;
use crate::document::{ElementModel, NodeModel};
use crate::eval::{dollar_free, lemma_plain_text_asks_nothing, lemma_plain_text_is_kept};
use crate::xacro::{
    attribute, bound_arguments, directive_of, evaluated, expand_children, expand_element,
    expand_node, is_bound, substituted, Directive, ErrorModel, ScopeModel, XACRO_PREFIX,
};

verus! {

/// Whether nothing is left to expand in `e` and below it: no element has
/// the directive prefix, and no attribute of an element without a prefix, no
/// text and no character data holds a `$`.
pub open spec fn resolved(e: ElementModel) -> bool
    decreases e,
{
    &&& e.prefix != Some(XACRO_PREFIX@)
    &&& e.prefix is None ==> forall|k: int|
        0 <= k < e.attributes.len() ==> dollar_free(#[trigger] e.attributes[k].1)
    &&& forall|k: int| 0 <= k < e.children.len() ==> resolved_node(#[trigger] e.children[k])
}

/// Whether nothing is left to expand in `node` and below it.
pub open spec fn resolved_node(node: NodeModel) -> bool
    decreases node,
{
    match node {
        NodeModel::Element(e) => resolved(e),
        NodeModel::Text(text) => dollar_free(text),
        NodeModel::CData(text) => dollar_free(text),
        NodeModel::Comment(_) => true,
        NodeModel::ProcessingInstruction(_, _) => true,
    }
}

/// A text without `$` is substituted to itself, whether or not the working
/// directory is known.
pub proof fn lemma_plain_text_is_substituted(
    text: Seq<char>,
    properties: Map<Seq<char>, Seq<char>>,
    cwd: Option<Seq<char>>,
)
    requires
        dollar_free(text),
    ensures
        substituted(text, properties, cwd) == Some(text),
{
    lemma_plain_text_asks_nothing(text, properties);
    match cwd {
        Some(directory) => {
            lemma_plain_text_is_kept(text, properties, directory);
        },
        None => {
            lemma_plain_text_is_kept(text, properties, Seq::empty());
        },
    }
}

/// Expansion changes nothing where nothing is left to expand: an element
/// that is resolved comes out as it went in, with its text, its comments and
/// all else below it, and so does the scope, whatever it holds.
pub proof fn lemma_resolved_is_kept(e: ElementModel, scope: ScopeModel, cwd: Option<Seq<char>>, depth: nat)
    requires
        resolved(e),
    ensures
        expand_element(e, scope, cwd, depth) == (scope, Ok::<ElementModel, ErrorModel>(e)),
    decreases e, 0int,
{
    lemma_resolved_children_are_kept(e.children, 0, scope, cwd, depth);
    assert(e.children.subrange(0, e.children.len() as int) =~= e.children);
    if e.prefix is None {
        assert forall|k: int| 0 <= k < e.attributes.len() implies #[trigger] substituted(
            e.attributes[k].1,
            scope.properties,
            cwd,
        ) == Some(e.attributes[k].1) by {
            lemma_plain_text_is_substituted(e.attributes[k].1, scope.properties, cwd);
        }
        assert(evaluated(e.attributes, scope.properties, cwd) is Some);
        assert(evaluated(e.attributes, scope.properties, cwd).unwrap() =~= e.attributes);
    }
}

/// Nodes that are resolved come out of the expansion as they went in.
pub proof fn lemma_resolved_children_are_kept(
    nodes: Seq<NodeModel>,
    i: int,
    scope: ScopeModel,
    cwd: Option<Seq<char>>,
    depth: nat,
)
    requires
        0 <= i <= nodes.len(),
        forall|k: int| i <= k < nodes.len() ==> resolved_node(#[trigger] nodes[k]),
    ensures
        expand_children(nodes, i, scope, cwd, depth) == (
            scope,
            Ok::<Seq<NodeModel>, ErrorModel>(nodes.subrange(i, nodes.len() as int)),
        ),
    decreases nodes, nodes.len() - i,
{
    if i < nodes.len() {
        assert(resolved_node(nodes[i]));
        match nodes[i] {
            NodeModel::Element(e) => {
                assert(resolved(e));
                assert(directive_of(e.prefix, e.name) == Directive::Plain);
                lemma_resolved_is_kept(e, scope, cwd, depth);
            },
            NodeModel::Text(text) => {
                lemma_plain_text_is_substituted(text, scope.properties, cwd);
            },
            NodeModel::CData(text) => {
                lemma_plain_text_is_substituted(text, scope.properties, cwd);
            },
            _ => {},
        }
        assert(expand_node(nodes[i], scope, cwd, depth) == (
            scope,
            Ok::<Seq<NodeModel>, ErrorModel>(seq![nodes[i]]),
        ));
        lemma_resolved_children_are_kept(nodes, i + 1, scope, cwd, depth);
        assert(seq![nodes[i]] + nodes.subrange(i + 1, nodes.len() as int) =~= nodes.subrange(
            i,
            nodes.len() as int,
        ));
    } else {
        assert(nodes.subrange(i, nodes.len() as int) =~= Seq::<NodeModel>::empty());
    }
}

/// A macro call leaves the scope of the caller as it was: what the body of
/// the macro defines is not seen behind the call.
pub proof fn lemma_call_keeps_scope(e: ElementModel, scope: ScopeModel, cwd: Option<Seq<char>>, depth: nat)
    requires
        directive_of(e.prefix, e.name) == Directive::Call,
    ensures
        expand_node(NodeModel::Element(e), scope, cwd, depth).0 == scope,
{
}

/// A call of a macro that the scope does not know fails, and names the
/// macro.
pub proof fn lemma_unknown_macro_fails(
    e: ElementModel,
    scope: ScopeModel,
    cwd: Option<Seq<char>>,
    depth: nat,
)
    requires
        directive_of(e.prefix, e.name) == Directive::Call,
        !scope.macros.contains_key(e.name),
    ensures
        expand_node(NodeModel::Element(e), scope, cwd, depth).1 == Err::<
            Seq<NodeModel>,
            ErrorModel,
        >(ErrorModel::UnknownMacro(e.name)),
{
}

/// An attribute of the call goes before the default of the parameter: the
/// parameter is bound to the attribute's value, substituted under the
/// caller's properties, and where that value cannot be substituted, nothing
/// is bound.
pub proof fn lemma_attribute_goes_before_default(
    params: Map<Seq<char>, Option<Seq<char>>>,
    attributes: Seq<(Seq<char>, Seq<char>)>,
    caller: Map<Seq<char>, Seq<char>>,
    cwd: Option<Seq<char>>,
    name: Seq<char>,
    given: Seq<char>,
)
    requires
        params.contains_key(name),
        attribute(attributes, name) == Some(given),
    ensures
        bound_arguments(params, attributes, caller, cwd) matches Some(bound) ==> bound.contains_key(
            name,
        ) && Some(bound[name]) == substituted(given, caller, cwd),
        substituted(given, caller, cwd) is None ==> bound_arguments(
            params,
            attributes,
            caller,
            cwd,
        ) is None,
{
    assert(is_bound(params, attributes, name));
}

/// A property directive with its two attributes, whose value can be
/// substituted, defines the property for what follows, in place of an
/// earlier definition: the property holds the value, substituted under the
/// properties that were in force before.
pub proof fn lemma_property_is_redefined(
    e: ElementModel,
    scope: ScopeModel,
    cwd: Option<Seq<char>>,
    depth: nat,
    name: Seq<char>,
    value: Seq<char>,
)
    requires
        directive_of(e.prefix, e.name) == Directive::Property,
        attribute(e.attributes, "name"@) == Some(name),
        attribute(e.attributes, "value"@) == Some(value),
        substituted(value, scope.properties, cwd) is Some,
    ensures
        expand_node(NodeModel::Element(e), scope, cwd, depth).1 == Ok::<
            Seq<NodeModel>,
            ErrorModel,
        >(Seq::empty()),
        expand_node(NodeModel::Element(e), scope, cwd, depth).0.properties
            == scope.properties.insert(
            name,
            substituted(value, scope.properties, cwd).unwrap(),
        ),
        expand_node(NodeModel::Element(e), scope, cwd, depth).0.macros == scope.macros,
{
}

/// Whether no element among `nodes` and below them has the directive
/// prefix.
pub open spec fn free_of_directives(nodes: Seq<NodeModel>) -> bool
    decreases nodes, 1int,
{
    forall|k: int| 0 <= k < nodes.len() ==> element_without_directives(#[trigger] nodes[k])
}

/// Whether `node` is no element with the directive prefix and has none
/// below it.
pub open spec fn element_without_directives(node: NodeModel) -> bool
    decreases node, 0int,
{
    match node {
        NodeModel::Element(e) => e.prefix != Some(XACRO_PREFIX@) && free_of_directives(e.children),
        _ => true,
    }
}

/// No directive is left below an element that was expanded: no element
/// below it has the directive prefix.
pub proof fn lemma_element_leaves_no_directive(
    e: ElementModel,
    scope: ScopeModel,
    cwd: Option<Seq<char>>,
    depth: nat,
)
    ensures
        expand_element(e, scope, cwd, depth).1 matches Ok(out) ==> free_of_directives(
            out.children,
        ),
    decreases depth, e, 0int,
{
    lemma_children_leave_no_directive(e.children, 0, scope, cwd, depth);
}

/// No directive is left among the nodes that an expansion of nodes gives.
pub proof fn lemma_children_leave_no_directive(
    nodes: Seq<NodeModel>,
    i: int,
    scope: ScopeModel,
    cwd: Option<Seq<char>>,
    depth: nat,
)
    ensures
        expand_children(nodes, i, scope, cwd, depth).1 matches Ok(out) ==> free_of_directives(out),
    decreases depth, nodes, nodes.len() - i,
{
    if 0 <= i < nodes.len() {
        let first = expand_node(nodes[i], scope, cwd, depth);
        lemma_node_leaves_no_directive(nodes[i], scope, cwd, depth);
        if first.1 is Ok {
            lemma_children_leave_no_directive(nodes, i + 1, first.0, cwd, depth);
        }
    }
}

/// No directive is left among the nodes that stand in the place of an
/// expanded node.
pub proof fn lemma_node_leaves_no_directive(
    node: NodeModel,
    scope: ScopeModel,
    cwd: Option<Seq<char>>,
    depth: nat,
)
    ensures
        expand_node(node, scope, cwd, depth).1 matches Ok(out) ==> free_of_directives(out),
    decreases depth, node, 0int,
{
    match node {
        NodeModel::Element(e) => {
            match directive_of(e.prefix, e.name) {
                Directive::If | Directive::Unless | Directive::Plain => {
                    lemma_element_leaves_no_directive(e, scope, cwd, depth);
                },
                Directive::Call => {
                    if scope.macros.contains_key(e.name) && depth > 0 {
                        let called = scope.macros[e.name];
                        match bound_arguments(
                            called.params,
                            e.attributes,
                            scope.properties,
                            cwd,
                        ) {
                            Some(properties) => {
                                lemma_element_leaves_no_directive(
                                    called.body,
                                    ScopeModel { properties, macros: scope.macros },
                                    cwd,
                                    (depth - 1) as nat,
                                );
                            },
                            None => {},
                        }
                    }
                },
                _ => {},
            }
        },
        _ => {},
    }
}

} // verus!
