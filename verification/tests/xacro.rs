use xurdf::dict::NameMap;
use xurdf::document::{Element, XMLNode};
use xurdf::eval::PropertyValue;
use xurdf::text::is_whitespace;
use xurdf::xacro::{
    check_condition, classify, evaluate_attributes, find_attribute, parse_xacro, substitute,
    Context, Directive, XacroError, DEFAULT_DEPTH, XACRO_PREFIX,
};

const HEAD: &str = "<robot xmlns:xacro=\"http://www.ros.org/wiki/xacro\" name=\"r\">";
const TAIL: &str = "</robot>";

fn from_xml(source: &xmltree::Element) -> Element {
    let mut attributes: Vec<(String, String)> = source
        .attributes
        .iter()
        .map(|(k, v)| (k.clone(), v.clone()))
        .collect();
    attributes.sort();
    Element {
        prefix: source.prefix.clone(),
        namespace: source.namespace.clone(),
        namespaces: source
            .namespaces
            .as_ref()
            .map(|n| n.0.iter().map(|(k, v)| (k.clone(), v.clone())).collect()),
        name: source.name.clone(),
        attributes,
        children: source
            .children
            .iter()
            .map(|child| match child {
                xmltree::XMLNode::Element(e) => XMLNode::Element(from_xml(e)),
                xmltree::XMLNode::Comment(t) => XMLNode::Comment(t.clone()),
                xmltree::XMLNode::CData(t) => XMLNode::CData(t.clone()),
                xmltree::XMLNode::Text(t) => XMLNode::Text(t.clone()),
                xmltree::XMLNode::ProcessingInstruction(t, d) => {
                    XMLNode::ProcessingInstruction(t.clone(), d.clone())
                }
            })
            .collect(),
    }
}

fn read(xml: &str) -> Element {
    from_xml(&xmltree::Element::parse(xml.as_bytes()).unwrap())
}

fn document(inside: &str) -> Element {
    read(&format!("{}{}{}", HEAD, inside, TAIL))
}

fn expand(inside: &str) -> Result<Element, XacroError> {
    parse_xacro(&document(inside), Some("/work"))
}

fn attr<'a>(element: &'a Element, name: &str) -> Option<&'a str> {
    element
        .attributes
        .iter()
        .find(|(k, _)| k == name)
        .map(|(_, v)| v.as_str())
}

fn elements(element: &Element) -> Vec<&Element> {
    element
        .children
        .iter()
        .filter_map(|c| match c {
            XMLNode::Element(e) => Some(e),
            _ => None,
        })
        .collect()
}

fn child(element: &Element, i: usize) -> &Element {
    elements(element)[i]
}

fn names(element: &Element) -> Vec<String> {
    elements(element).iter().map(|e| e.name.clone()).collect()
}

fn assert_no_directive(element: &Element) {
    for e in elements(element) {
        assert_ne!(e.prefix.as_deref(), Some("xacro"));
        assert_no_directive(e);
    }
}

fn plain(name: &str, attributes: &[(&str, &str)], children: Vec<XMLNode>) -> Element {
    Element {
        prefix: None,
        namespace: None,
        namespaces: None,
        name: name.to_string(),
        attributes: attributes
            .iter()
            .map(|(k, v)| (k.to_string(), v.to_string()))
            .collect(),
        children,
    }
}

fn directive(name: &str, attributes: &[(&str, &str)], children: Vec<XMLNode>) -> Element {
    let mut element = plain(name, attributes, children);
    element.prefix = Some("xacro".to_string());
    element
}

#[test]
fn property_redefinition_takes_the_last_value() {
    let out = expand(
        "<xacro:property name=\"x\" value=\"1\"/>\
         <a v=\"${x}\"/>\
         <xacro:property name=\"x\" value=\"2\"/>\
         <b v=\"${x}\"/>",
    )
    .unwrap();
    assert_eq!(names(&out), vec!["a", "b"]);
    assert_eq!(attr(child(&out, 0), "v"), Some("1"));
    assert_eq!(attr(child(&out, 1), "v"), Some("2"));
}

#[test]
fn property_may_use_earlier_properties() {
    let out = expand(
        "<xacro:property name=\"r\" value=\"0.5\"/>\
         <xacro:property name=\"d\" value=\"${2 * r}\"/>\
         <a v=\"${d}\" w=\"${later}\"/>\
         <xacro:property name=\"later\" value=\"3\"/>",
    )
    .unwrap();
    assert_eq!(attr(child(&out, 0), "v"), Some("1"));
    assert_eq!(attr(child(&out, 0), "w"), Some("${later}"));
}

#[test]
fn conditional_if_and_unless() {
    let out = expand("<xacro:if value=\"true\"><a/></xacro:if>").unwrap();
    assert_eq!(names(&out), vec!["a"]);
    let out = expand("<xacro:unless value=\"true\"><a/></xacro:unless>").unwrap();
    assert!(out.children.is_empty());
    let out = expand("<xacro:if value=\"false\"><a/></xacro:if>").unwrap();
    assert!(out.children.is_empty());
    let out = expand("<xacro:unless value=\"false\"><a/><b/></xacro:unless>").unwrap();
    assert_eq!(names(&out), vec!["a", "b"]);
}

#[test]
fn conditional_reads_the_current_scope_and_writes_it() {
    let out = expand(
        "<xacro:property name=\"n\" value=\"3\"/>\
         <xacro:if value=\"${n > 2}\">\
           <xacro:property name=\"inside\" value=\"yes\"/>\
           <a v=\"${n}\"/>\
         </xacro:if>\
         <b v=\"${inside}\"/>",
    )
    .unwrap();
    assert_eq!(names(&out), vec!["a", "b"]);
    assert_eq!(attr(child(&out, 0), "v"), Some("3"));
    assert_eq!(attr(child(&out, 1), "v"), Some("yes"));
}

#[test]
fn conditional_that_is_no_boolean_counts_as_false() {
    let out = expand(
        "<xacro:if value=\"maybe\"><a/></xacro:if>\
         <xacro:unless value=\"maybe\"><b/></xacro:unless>",
    )
    .unwrap();
    assert_eq!(names(&out), vec!["b"]);
}

#[test]
fn macro_call_argument_goes_before_default() {
    let out = expand(
        "<xacro:macro name=\"m\" params=\"p:=default\"><a v=\"${p}\"/></xacro:macro>\
         <xacro:m p=\"override\"/>\
         <xacro:m/>",
    )
    .unwrap();
    assert_eq!(names(&out), vec!["a", "a"]);
    assert_eq!(attr(child(&out, 0), "v"), Some("override"));
    assert_eq!(attr(child(&out, 1), "v"), Some("default"));
}

#[test]
fn macro_arguments_are_substituted_in_the_scope_of_the_caller() {
    let out = expand(
        "<xacro:property name=\"x\" value=\"1\"/>\
         <xacro:macro name=\"m\" params=\"x:=5 y:=${x} z\"><a x=\"${x}\" y=\"${y}\" z=\"${z}\"/></xacro:macro>\
         <xacro:m z=\"${x + 1}\"/>",
    )
    .unwrap();
    let a = child(&out, 0);
    assert_eq!(attr(a, "x"), Some("5"));
    assert_eq!(attr(a, "y"), Some("1"));
    assert_eq!(attr(a, "z"), Some("2"));
}

#[test]
fn macro_parameter_without_value_stays_unbound() {
    let out = expand(
        "<xacro:macro name=\"m\" params=\"p\"><a v=\"${p}\"/></xacro:macro>\
         <xacro:m/>\
         <xacro:property name=\"p\" value=\"7\"/>\
         <xacro:m/>",
    )
    .unwrap();
    assert_eq!(attr(child(&out, 0), "v"), Some("${p}"));
    assert_eq!(attr(child(&out, 1), "v"), Some("7"));
}

#[test]
fn macro_properties_do_not_leak() {
    let out = expand(
        "<xacro:property name=\"x\" value=\"1\"/>\
         <xacro:macro name=\"m\" params=\"\">\
           <xacro:property name=\"x\" value=\"2\"/>\
           <xacro:property name=\"y\" value=\"3\"/>\
           <xacro:macro name=\"inner\" params=\"\"><i/></xacro:macro>\
           <a x=\"${x}\" y=\"${y}\"/>\
         </xacro:macro>\
         <xacro:m/>\
         <b x=\"${x}\" y=\"${y}\"/>",
    )
    .unwrap();
    assert_eq!(names(&out), vec!["a", "b"]);
    assert_eq!(attr(child(&out, 0), "x"), Some("2"));
    assert_eq!(attr(child(&out, 0), "y"), Some("3"));
    assert_eq!(attr(child(&out, 1), "x"), Some("1"));
    assert_eq!(attr(child(&out, 1), "y"), Some("${y}"));
    let leaked = expand(
        "<xacro:macro name=\"m\" params=\"\">\
           <xacro:macro name=\"inner\" params=\"\"><i/></xacro:macro>\
         </xacro:macro>\
         <xacro:m/>\
         <xacro:inner/>",
    );
    assert_eq!(leaked, Err(XacroError::UnknownMacro("inner".to_string())));
}

#[test]
fn macro_body_is_spliced_without_its_element() {
    let out = expand(
        "<xacro:macro name=\"pair\" params=\"n\"><a v=\"${n}\"><c/></a><b/></xacro:macro>\
         <first/>\
         <xacro:pair n=\"1\"/>\
         <last/>",
    )
    .unwrap();
    assert_eq!(names(&out), vec!["first", "a", "b", "last"]);
    assert_eq!(names(child(&out, 1)), vec!["c"]);
}

#[test]
fn macro_may_call_a_macro_defined_before_the_call() {
    let out = expand(
        "<xacro:macro name=\"outer\" params=\"n\"><xacro:inner m=\"${n * 2}\"/></xacro:macro>\
         <xacro:macro name=\"inner\" params=\"m\"><a v=\"${m}\"/></xacro:macro>\
         <xacro:outer n=\"2\"/>",
    )
    .unwrap();
    assert_eq!(names(&out), vec!["a"]);
    assert_eq!(attr(child(&out, 0), "v"), Some("4"));
}

#[test]
fn macro_defined_later_is_not_seen() {
    let out = expand(
        "<xacro:m/>\
         <xacro:macro name=\"m\" params=\"\"><a/></xacro:macro>",
    );
    assert_eq!(out, Err(XacroError::UnknownMacro("m".to_string())));
}

#[test]
fn macro_redefinition_takes_the_last_body() {
    let out = expand(
        "<xacro:macro name=\"m\" params=\"\"><a/></xacro:macro>\
         <xacro:macro name=\"m\" params=\"\"><b/></xacro:macro>\
         <xacro:m/>",
    )
    .unwrap();
    assert_eq!(names(&out), vec!["b"]);
}

#[test]
fn unknown_macro_is_an_error() {
    let out = expand("<a/><xacro:nothing/>");
    assert_eq!(out, Err(XacroError::UnknownMacro("nothing".to_string())));
    let out = expand("<a><b><xacro:include filename=\"x\"/></b></a>");
    assert_eq!(out, Err(XacroError::UnknownMacro("include".to_string())));
}

#[test]
fn missing_attribute_is_an_error() {
    let missing = |key: &str| Err(XacroError::MissingAttribute(key.to_string()));
    assert_eq!(expand("<xacro:property value=\"1\"/>"), missing("name"));
    assert_eq!(expand("<xacro:property name=\"x\"/>"), missing("value"));
    assert_eq!(expand("<xacro:property/>"), missing("name"));
    assert_eq!(expand("<xacro:macro params=\"\"><a/></xacro:macro>"), missing("name"));
    assert_eq!(expand("<xacro:macro name=\"m\"><a/></xacro:macro>"), missing("params"));
    assert_eq!(expand("<xacro:if><a/></xacro:if>"), missing("value"));
    assert_eq!(expand("<xacro:unless><a/></xacro:unless>"), missing("value"));
}

#[test]
fn first_error_in_document_order_wins() {
    let out = expand("<a><xacro:one/></a><xacro:property/>");
    assert_eq!(out, Err(XacroError::UnknownMacro("one".to_string())));
    let out = expand("<xacro:if value=\"false\"><xacro:one/></xacro:if><xacro:two/>");
    assert_eq!(out, Err(XacroError::UnknownMacro("two".to_string())));
}

#[test]
fn recursive_macro_is_given_up() {
    let out = expand(
        "<xacro:macro name=\"m\" params=\"\"><a/><xacro:m/></xacro:macro>\
         <xacro:m/>",
    );
    assert_eq!(out, Err(XacroError::TooDeep));
}

#[test]
fn calls_nest_as_deep_as_the_scope_allows() {
    let root = document(
        "<xacro:macro name=\"one\" params=\"\"><a/></xacro:macro>\
         <xacro:macro name=\"two\" params=\"\"><xacro:one/></xacro:macro>\
         <xacro:two/>",
    );
    let mut context = Context::new(Some("/work"));
    assert_eq!(context.depth, DEFAULT_DEPTH);
    context.depth = 2;
    assert_eq!(names(&context.parse_and_write_xacro(&root).unwrap()), vec!["a"]);
    let mut context = Context::new(Some("/work"));
    context.depth = 1;
    assert_eq!(context.parse_and_write_xacro(&root), Err(XacroError::TooDeep));
    assert_eq!(context.depth, 1);
}

#[test]
fn expanded_document_is_kept() {
    let first = expand(
        "<xacro:property name=\"w\" value=\"0.1\"/>\
         <xacro:macro name=\"wheel\" params=\"side\">\
           <link name=\"${side}_wheel\"><visual><cylinder radius=\"${w}\"/></visual></link>\
         </xacro:macro>\
         <xacro:wheel side=\"left\"/>\
         <xacro:if value=\"${w &lt; 1}\"><xacro:wheel side=\"right\"/></xacro:if>",
    )
    .unwrap();
    assert_eq!(names(&first), vec!["link", "link"]);
    assert_no_directive(&first);
    assert_eq!(attr(child(&first, 0), "name"), Some("left_wheel"));
    assert_eq!(attr(child(&first, 1), "name"), Some("right_wheel"));
    let second = parse_xacro(&first, Some("/elsewhere")).unwrap();
    assert_eq!(second, first);
}

#[test]
fn document_without_directives_is_kept() {
    let root = plain(
        "robot",
        &[("name", "r"), ("note", "a {b} (c)")],
        vec![
            XMLNode::Element(plain("link", &[("name", "base")], vec![])),
            XMLNode::Element(plain(
                "joint",
                &[("name", "j"), ("type", "fixed")],
                vec![XMLNode::Element(plain("parent", &[("link", "base")], vec![]))],
            )),
        ],
    );
    let mut context = Context::new(Some("/work"));
    context.properties.insert(
        "x".to_string(),
        PropertyValue {
            raw_value: "1".to_string(),
        },
    );
    assert_eq!(context.parse_and_write_xacro(&root).unwrap(), root);
    assert_eq!(context.properties.len(), 1);
    assert_eq!(context.macros.len(), 0);
}

#[test]
fn nodes_that_are_no_elements_stay_in_their_place() {
    let root = plain(
        "robot",
        &[],
        vec![
            XMLNode::Text("hello".to_string()),
            XMLNode::Comment("c ${1 + 1}".to_string()),
            XMLNode::Element(plain("a", &[], vec![XMLNode::CData("d".to_string())])),
            XMLNode::ProcessingInstruction("pi".to_string(), Some("${x}".to_string())),
        ],
    );
    let out = parse_xacro(&root, Some("")).unwrap();
    assert_eq!(out, root);
    let out = parse_xacro(&read("<r>hi</r>"), Some("")).unwrap();
    assert_eq!(out.children, vec![XMLNode::Text("hi".to_string())]);
}

#[test]
fn text_is_substituted_under_the_scope_at_its_place() {
    let root = plain(
        "robot",
        &[],
        vec![
            XMLNode::Text("x is ${x}".to_string()),
            XMLNode::Element(directive("property", &[("name", "x"), ("value", "2")], vec![])),
            XMLNode::Text("x is ${x}, twice ${x * 2}".to_string()),
            XMLNode::CData("in $(cwd): ${x}".to_string()),
            XMLNode::Element(directive(
                "if",
                &[("value", "${x > 1}")],
                vec![XMLNode::Text("yes ${x}".to_string())],
            )),
        ],
    );
    let out = parse_xacro(&root, Some("/w")).unwrap();
    assert_eq!(
        out.children,
        vec![
            XMLNode::Text("x is ${x}".to_string()),
            XMLNode::Text("x is 2, twice 4".to_string()),
            XMLNode::CData("in /w: 2".to_string()),
            XMLNode::Text("yes 2".to_string()),
        ]
    );
}

#[test]
fn text_in_a_macro_body_sees_the_arguments() {
    let out = expand(
        "<xacro:macro name=\"m\" params=\"n\"><a>n = ${n}</a><!-- ${n} --></xacro:macro>\
         <xacro:m n=\"5\"/>",
    )
    .unwrap();
    assert_eq!(names(&out), vec!["a"]);
    assert_eq!(child(&out, 0).children, vec![XMLNode::Text("n = 5".to_string())]);
    assert_eq!(out.children[1], XMLNode::Comment(" ${n} ".to_string()));
}

#[test]
fn attributes_of_the_root_are_substituted() {
    let root = plain("robot", &[("name", "${1 + 1}"), ("dir", "$(cwd)")], vec![]);
    let out = parse_xacro(&root, Some("/work")).unwrap();
    assert_eq!(attr(&out, "name"), Some("2"));
    assert_eq!(attr(&out, "dir"), Some("/work"));
}

#[test]
fn attributes_under_another_prefix_are_kept() {
    let mut other = plain("plugin", &[("v", "${1 + 1}")], vec![]);
    other.prefix = Some("gz".to_string());
    other.namespace = Some("http://gz".to_string());
    other.namespaces = Some(vec![("gz".to_string(), "http://gz".to_string())]);
    other.children = vec![XMLNode::Element(plain("a", &[("v", "${1 + 1}")], vec![]))];
    let root = plain("robot", &[], vec![XMLNode::Element(other)]);
    let out = parse_xacro(&root, Some("")).unwrap();
    let kept = child(&out, 0);
    assert_eq!(kept.prefix, Some("gz".to_string()));
    assert_eq!(kept.namespace, Some("http://gz".to_string()));
    assert_eq!(
        kept.namespaces,
        Some(vec![("gz".to_string(), "http://gz".to_string())])
    );
    assert_eq!(attr(kept, "v"), Some("${1 + 1}"));
    assert_eq!(attr(child(kept, 0), "v"), Some("2"));
}

#[test]
fn root_is_no_directive() {
    let root = directive(
        "if",
        &[("value", "false")],
        vec![XMLNode::Element(plain("a", &[], vec![]))],
    );
    let out = parse_xacro(&root, Some("")).unwrap();
    assert_eq!(out.prefix, Some("xacro".to_string()));
    assert_eq!(out.name, "if");
    assert_eq!(attr(&out, "value"), Some("false"));
    assert_eq!(names(&out), vec!["a"]);
}

#[test]
fn scope_goes_on_from_one_element_to_the_next() {
    let mut context = Context::new(Some("/work"));
    let defines = plain(
        "robot",
        &[],
        vec![
            XMLNode::Element(directive("property", &[("name", "x"), ("value", "4")], vec![])),
            XMLNode::Element(directive(
                "macro",
                &[("name", "m"), ("params", "p")],
                vec![XMLNode::Element(plain("a", &[("v", "${p * x}")], vec![]))],
            )),
        ],
    );
    let out = context.parse_and_write_xacro(&defines).unwrap();
    assert!(out.children.is_empty());
    assert_eq!(context.properties.get("x").unwrap().raw_value, "4");
    assert!(context.macros.contains_key("m"));
    let call = directive("m", &[("p", "2")], vec![]);
    let pieces = context.handle_macro_call(&call, "m").unwrap();
    assert_eq!(pieces, vec![XMLNode::Element(plain("a", &[("v", "8")], vec![]))]);
    assert_eq!(context.properties.len(), 1);
    let pieces = context.expand_node(&XMLNode::Element(call)).unwrap();
    assert_eq!(pieces, vec![XMLNode::Element(plain("a", &[("v", "8")], vec![]))]);
    assert_eq!(
        context.handle_macro_call(&directive("n", &[], vec![]), "n"),
        Err(XacroError::UnknownMacro("n".to_string()))
    );
}

#[test]
fn no_directive_is_left_below_the_root() {
    let out = expand(
        "text<!-- note -->\
         <xacro:macro name=\"m\" params=\"n\">\
           <a><xacro:if value=\"${n > 0}\"><b>inner</b></xacro:if></a>\
           <xacro:unless value=\"${n > 0}\"><c/></xacro:unless>\
         </xacro:macro>\
         <d><xacro:m n=\"1\"/><xacro:m n=\"0\"/></d>",
    )
    .unwrap();
    assert_no_directive(&out);
    assert_eq!(names(&out), vec!["d"]);
    assert_eq!(out.children[0], XMLNode::Text("text".to_string()));
    assert_eq!(out.children[1], XMLNode::Comment(" note ".to_string()));
    assert_eq!(names(child(&out, 0)), vec!["a", "a", "c"]);
    assert_eq!(names(child(child(&out, 0), 0)), vec!["b"]);
    assert_eq!(
        child(child(child(&out, 0), 0), 0).children,
        vec![XMLNode::Text("inner".to_string())]
    );
    assert!(child(child(&out, 0), 1).children.is_empty());
}

#[test]
fn unknown_working_directory_matters_only_where_it_is_asked_for() {
    let unknown = |inside: &str| parse_xacro(&document(inside), None);
    let stop = Err(XacroError::NoWorkingDirectory);
    let out = unknown(
        "<xacro:property name=\"x\" value=\"${1 + 1}\"/>\
         <a v=\"${x}\" w=\"$(find pkg)/m\">t ${x}</a>\
         <xacro:if value=\"false\"><b v=\"$(cwd)\"/></xacro:if>\
         <xacro:macro name=\"m\" params=\"p:=$(cwd)\"><c v=\"${p}\"/></xacro:macro>\
         <xacro:macro name=\"n\" params=\"\"><d v=\"$(cwd)\"/></xacro:macro>\
         <xacro:m p=\"1\"/>",
    )
    .unwrap();
    assert_eq!(names(&out), vec!["a", "c"]);
    assert_eq!(attr(child(&out, 0), "v"), Some("2"));
    assert_eq!(attr(child(&out, 0), "w"), Some("/m"));
    assert_eq!(child(&out, 0).children, vec![XMLNode::Text("t 2".to_string())]);
    assert_eq!(attr(child(&out, 1), "v"), Some("1"));
    assert_eq!(unknown("<a v=\"$(cwd)\"/>"), stop);
    assert_eq!(unknown("<a>in $(cwd)</a>"), stop);
    assert_eq!(unknown("<a><![CDATA[$(cwd)]]></a>"), stop);
    assert_eq!(unknown("<xacro:property name=\"x\" value=\"$(cwd)\"/>"), stop);
    assert_eq!(unknown("<xacro:if value=\"${'$(cwd)' == ''}\"/>"), stop);
    assert_eq!(unknown("<xacro:unless value=\"$(cwd)\"/>"), stop);
    assert_eq!(
        unknown("<xacro:macro name=\"m\" params=\"p:=$(cwd)\"><c/></xacro:macro><xacro:m/>"),
        stop
    );
    assert_eq!(
        unknown("<xacro:macro name=\"m\" params=\"p\"><c/></xacro:macro><xacro:m p=\"$(cwd)\"/>"),
        stop
    );
    assert_eq!(
        unknown("<xacro:macro name=\"n\" params=\"\"><d v=\"$(cwd)\"/></xacro:macro><xacro:n/>"),
        stop
    );
    assert_eq!(unknown("<a v=\"${bad} $(cwd)\"/>"), stop);
    assert_eq!(
        unknown("<a><xacro:nothing/></a><b v=\"$(cwd)\"/>"),
        Err(XacroError::UnknownMacro("nothing".to_string()))
    );
}

#[test]
fn substitute_with_and_without_a_working_directory() {
    let mut properties = NameMap::new();
    properties.insert(
        "x".to_string(),
        PropertyValue {
            raw_value: "2".to_string(),
        },
    );
    let known = Some("/w".to_string());
    assert_eq!(substitute("${x}$(cwd)", &properties, &known), Some("2/w".to_string()));
    assert_eq!(substitute("${x}$(cwd)", &properties, &None), None);
    assert_eq!(substitute("${x}$(pwd)", &properties, &None), Some("2".to_string()));
    assert_eq!(substitute("${x} $ (cwd)", &properties, &None), Some("2 $ (cwd)".to_string()));
    assert_eq!(check_condition("${x > 1}", &properties, &None), Some(true));
    assert_eq!(check_condition("${x > 2}", &properties, &known), Some(false));
    assert_eq!(check_condition("'$(cwd)' == '/w'", &properties, &known), Some(false));
    assert_eq!(check_condition("\"$(cwd)\" == \"/w\"", &properties, &known), Some(true));
    assert_eq!(check_condition("$(cwd)", &properties, &None), None);
}

#[test]
fn classify_by_prefix_and_name() {
    assert_eq!(XACRO_PREFIX, "xacro");
    assert_eq!(classify(&directive("property", &[], vec![])), Directive::Property);
    assert_eq!(classify(&directive("macro", &[], vec![])), Directive::Macro);
    assert_eq!(classify(&directive("if", &[], vec![])), Directive::If);
    assert_eq!(classify(&directive("unless", &[], vec![])), Directive::Unless);
    assert_eq!(classify(&directive("wheel", &[], vec![])), Directive::Call);
    assert_eq!(classify(&directive("Property", &[], vec![])), Directive::Call);
    assert_eq!(classify(&plain("property", &[], vec![])), Directive::Plain);
    let mut other = plain("if", &[], vec![]);
    other.prefix = Some("xacr".to_string());
    assert_eq!(classify(&other), Directive::Plain);
}

#[test]
fn find_attribute_takes_the_first_of_a_name() {
    let attributes = vec![
        ("a".to_string(), "1".to_string()),
        ("b".to_string(), "2".to_string()),
        ("a".to_string(), "3".to_string()),
    ];
    assert_eq!(find_attribute(&attributes, "a"), Some(&"1".to_string()));
    assert_eq!(find_attribute(&attributes, "b"), Some(&"2".to_string()));
    assert_eq!(find_attribute(&attributes, "c"), None);
    assert_eq!(find_attribute(&Vec::new(), "a"), None);
}

#[test]
fn evaluate_attributes_keeps_names_and_order() {
    let mut properties = NameMap::new();
    properties.insert(
        "x".to_string(),
        PropertyValue {
            raw_value: "2".to_string(),
        },
    );
    let attributes = vec![
        ("b".to_string(), "${x * 2}".to_string()),
        ("a".to_string(), "plain".to_string()),
        ("c".to_string(), "$(cwd)".to_string()),
    ];
    assert_eq!(
        evaluate_attributes(&attributes, &properties, &Some("/w".to_string())),
        Some(vec![
            ("b".to_string(), "4".to_string()),
            ("a".to_string(), "plain".to_string()),
            ("c".to_string(), "/w".to_string()),
        ])
    );
    assert_eq!(evaluate_attributes(&attributes, &properties, &None), None);
    assert_eq!(
        evaluate_attributes(&attributes[..2].to_vec(), &properties, &None),
        Some(vec![
            ("b".to_string(), "4".to_string()),
            ("a".to_string(), "plain".to_string()),
        ])
    );
}

#[test]
fn parse_macro_args_splits_names_and_defaults() {
    let params = Context::parse_macro_args("a b:=1  c:=x:=y\td:=\ne");
    assert_eq!(params.len(), 5);
    assert_eq!(params.get("a"), Some(&None));
    assert_eq!(params.get("b"), Some(&Some("1".to_string())));
    assert_eq!(params.get("c"), Some(&Some("x:=y".to_string())));
    assert_eq!(params.get("d"), Some(&Some(String::new())));
    assert_eq!(params.get("e"), Some(&None));
    assert_eq!(params.name_at(0), "a");
    assert_eq!(params.name_at(4), "e");
}

#[test]
fn parse_macro_args_of_odd_words() {
    assert_eq!(Context::parse_macro_args("").len(), 0);
    assert_eq!(Context::parse_macro_args(" \t\n ").len(), 0);
    let params = Context::parse_macro_args(":=1 a: =b :");
    assert_eq!(params.len(), 4);
    assert_eq!(params.get(""), Some(&Some("1".to_string())));
    assert_eq!(params.get("a:"), Some(&None));
    assert_eq!(params.get("=b"), Some(&None));
    assert_eq!(params.get(":"), Some(&None));
}

#[test]
fn parse_macro_args_later_word_replaces_earlier() {
    let params = Context::parse_macro_args("a:=1 b a");
    assert_eq!(params.len(), 2);
    assert_eq!(params.get("a"), Some(&None));
    let params = Context::parse_macro_args("a a:=2");
    assert_eq!(params.len(), 1);
    assert_eq!(params.get("a"), Some(&Some("2".to_string())));
}

#[test]
fn parse_macro_args_agrees_with_split_whitespace() {
    for text in [
        "a\u{a0}b\u{2003}c:=1\u{3000}d",
        "x\u{85}y\u{1680}z\u{2028}w\u{2029}v\u{202f}u\u{205f}t",
        "k\u{200b}l m\u{feff}n",
    ] {
        let params = Context::parse_macro_args(text);
        let mut expected: Vec<(String, Option<String>)> = Vec::new();
        for arg in text.split_whitespace() {
            let mut iter = arg.splitn(2, ":=");
            let key = iter.next().unwrap().to_string();
            let value = iter.next().map(|s| s.to_string());
            expected.retain(|(k, _)| *k != key);
            expected.push((key, value));
        }
        assert_eq!(params.len(), expected.len(), "on {:?}", text);
        for (key, value) in expected {
            assert_eq!(params.get(&key), Some(&value), "on {:?}", text);
        }
    }
}

#[test]
fn is_whitespace_agrees_with_char() {
    for c in '\u{0}'..=char::MAX {
        assert_eq!(is_whitespace(c), c.is_whitespace(), "on {:?}", c);
    }
}

#[test]
fn error_messages_name_what_they_are_about() {
    assert_eq!(
        XacroError::MissingAttribute("value".to_string()).message(),
        "missing attribute: value"
    );
    assert_eq!(
        XacroError::UnknownMacro("wheel".to_string()).message(),
        "unknown macro: wheel"
    );
    assert_eq!(XacroError::TooDeep.message(), "macro calls are nested too deep");
    assert_eq!(
        XacroError::NoWorkingDirectory.message(),
        "the working directory is not known"
    );
}

#[test]
fn duplicate_of_an_element_is_equal() {
    let root = document("<a v=\"1\"><b/>text<!-- c --></a><xacro:if value=\"true\"/>");
    assert_eq!(root.duplicate(), root);
    assert_eq!(root.children[0].duplicate(), root.children[0]);
}
