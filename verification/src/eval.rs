//! Substitution of the `${...}` and `$(...)` spans of a text.

use vstd::prelude::*;
use crate::dict::{lemma_next_name, Duplicate, NameMap};
use crate::expr::{
    bind_number, bind_string, boolean_value, context_guards, context_numbers, context_strings,
    evaluate, evaluate_boolean, expression_value, guarded_context, number_text, reads_as_number,
    shift_guards,
};
use crate::lexer::{
    dollars_end, find_char, lemma_dollars_end, lemma_find_char, lemma_scan_bounds, scan, Lexer,
    TokenType,
};
use crate::text::{remove_quotation_marks, requote, requoted, same_text, unquoted};

verus! {

/// The value of a property: the text that it was defined with.
#[derive(Clone, Debug)]
pub struct PropertyValue {
    pub raw_value: String,
}

impl View for PropertyValue {
    type V = Seq<char>;

    open spec fn view(&self) -> Seq<char> {
        self.raw_value@
    }
}

impl DeepView for PropertyValue {
    type V = Seq<char>;

    open spec fn deep_view(&self) -> Seq<char> {
        self.raw_value@
    }
}

impl Duplicate for PropertyValue {
    fn duplicate(&self) -> (copy: PropertyValue) {
        PropertyValue { raw_value: self.raw_value.clone() }
    }
}

/// The properties that are bound as numbers: those whose text reads as a
/// floating-point number.
pub open spec fn numbers_of(properties: Map<Seq<char>, Seq<char>>) -> Map<Seq<char>, Seq<char>> {
    Map::new(
        |name: Seq<char>| properties.contains_key(name) && number_text(properties[name]),
        |name: Seq<char>| properties[name],
    )
}

/// The properties that are bound as strings: those whose text reads as no
/// number.
pub open spec fn strings_of(properties: Map<Seq<char>, Seq<char>>) -> Map<Seq<char>, Seq<char>> {
    Map::new(
        |name: Seq<char>| properties.contains_key(name) && !number_text(properties[name]),
        |name: Seq<char>| properties[name],
    )
}

/// What the evaluator makes of `expression` under the properties, each
/// bound as a number where its text reads as one, and as a string where it
/// does not.
pub open spec fn value_of(expression: Seq<char>, properties: Map<Seq<char>, Seq<char>>) -> Option<
    Seq<char>,
> {
    expression_value(expression, numbers_of(properties), strings_of(properties))
}

/// What an expression span contributes: the printed value without the quotes
/// that enclose it; `None` where the expression did not evaluate.
pub open spec fn expression_text(outcome: Option<Seq<char>>) -> Option<Seq<char>> {
    match outcome {
        Some(printed) => Some(unquoted(printed)),
        None => None,
    }
}

/// What an extension span contributes: the working directory for `cwd`,
/// nothing for any other name.
pub open spec fn extension_text(name: Seq<char>, cwd: Seq<char>) -> Seq<char> {
    if name == "cwd"@ {
        cwd
    } else {
        Seq::empty()
    }
}

/// The truth value of a text: whether the evaluator makes true of it.
pub open spec fn truth_of(text: Seq<char>) -> bool {
    boolean_value(text) == Some(true)
}

/// `rest` behind `first`, where there is a `rest`.
pub open spec fn joined(first: Seq<char>, rest: Option<Seq<char>>) -> Option<Seq<char>> {
    match rest {
        Some(more) => Some(first + more),
        None => None,
    }
}

/// `text` with its spans substituted: the contributions of its tokens in
/// order, or, as soon as one expression span does not evaluate, `text` as it
/// is.
pub open spec fn eval_text_spec(
    text: Seq<char>,
    bindings: Map<Seq<char>, Seq<char>>,
    cwd: Seq<char>,
) -> Seq<char>
    decreases text.len(), text.len() + 1,
{
    match pieces_from(text, 0, bindings, cwd) {
        Some(out) => out,
        None => text,
    }
}

/// What the token contributes that `scan` finds in `text`: literal text
/// itself, an escaped dollar nothing, a span what its inside gives. The
/// inside of a span is substituted first, then its single quotes are turned
/// into double quotes, and then it is evaluated. `None` for an expression
/// that does not evaluate.
pub open spec fn piece_of(
    kind: TokenType,
    inside: Seq<char>,
    payload: Seq<char>,
    bindings: Map<Seq<char>, Seq<char>>,
    cwd: Seq<char>,
) -> Option<Seq<char>> {
    match kind {
        TokenType::Text => Some(payload),
        TokenType::Expr => expression_text(value_of(requoted(inside), bindings)),
        TokenType::Extension => Some(extension_text(requoted(inside), cwd)),
        TokenType::DollarDollarBrace => Some(Seq::empty()),
    }
}

/// The contributions of the tokens of `text` from `pos` on, in a row; `None`
/// where an expression span among them does not evaluate.
pub open spec fn pieces_from(
    text: Seq<char>,
    pos: int,
    bindings: Map<Seq<char>, Seq<char>>,
    cwd: Seq<char>,
) -> Option<Seq<char>>
    decreases text.len(), text.len() - pos,
    when 0 <= pos
    via pieces_from_decreases
{
    match scan(text, pos) {
        None => Some(Seq::empty()),
        Some(token) => {
            let inside = if token.kind == TokenType::Expr || token.kind == TokenType::Extension {
                eval_text_spec(token.payload, bindings, cwd)
            } else {
                token.payload
            };
            match piece_of(token.kind, inside, token.payload, bindings, cwd) {
                Some(piece) => joined(piece, pieces_from(text, token.next, bindings, cwd)),
                None => None,
            }
        },
    }
}

#[via_fn]
proof fn pieces_from_decreases(
    text: Seq<char>,
    pos: int,
    bindings: Map<Seq<char>, Seq<char>>,
    cwd: Seq<char>,
) {
    if pos < text.len() {
        lemma_scan_bounds(text, pos);
    }
}

/// Whether `s` holds no `$`.
pub open spec fn dollar_free(s: Seq<char>) -> bool {
    forall|i: int| 0 <= i < s.len() ==> s[i] != '$'
}

/// Substitution leaves a text without `$` as it is, whatever the properties
/// and the working directory.
pub proof fn lemma_plain_text_is_kept(
    text: Seq<char>,
    bindings: Map<Seq<char>, Seq<char>>,
    cwd: Seq<char>,
)
    requires
        dollar_free(text),
    ensures
        eval_text_spec(text, bindings, cwd) == text,
{
    if text.len() == 0 {
        assert(eval_text_spec(text, bindings, cwd) =~= text);
    } else {
        lemma_dollars_end(text, 0);
        lemma_find_char(text, 0, '$');
        let token = scan(text, 0)->0;
        assert(token.kind == TokenType::Text);
        assert(token.next == text.len());
        assert(token.payload =~= text);
        assert(pieces_from(text, token.next, bindings, cwd) == Some(Seq::<char>::empty()));
        assert(token.payload + Seq::<char>::empty() =~= text);
    }
}

/// `${`, `inner` and `}` in a row.
pub open spec fn span_of(inner: Seq<char>) -> Seq<char> {
    seq!['$', '{'] + inner + seq!['}']
}

/// A text that is one span around an expression without `$` and `}` gives
/// what the evaluator makes of the expression, its single quotes turned into
/// double quotes: the printed value without its quotes, or the text itself
/// where the expression does not evaluate.
pub proof fn lemma_single_span(
    inner: Seq<char>,
    bindings: Map<Seq<char>, Seq<char>>,
    cwd: Seq<char>,
)
    requires
        dollar_free(inner),
        forall|i: int| 0 <= i < inner.len() ==> inner[i] != '}',
    ensures
        eval_text_spec(span_of(inner), bindings, cwd) == match value_of(
            requoted(inner),
            bindings,
        ) {
            Some(printed) => unquoted(printed),
            None => span_of(inner),
        },
{
    let text = span_of(inner);
    let close = (inner.len() + 2) as int;
    assert(text.len() == close + 1);
    assert(text[0] == '$' && text[1] == '{' && text[close] == '}');
    assert forall|k: int| 2 <= k < close implies text[k] == inner[k - 2] by {}
    lemma_dollars_end(text, 0);
    lemma_dollars_end(text, 1);
    lemma_find_char(text, 2, '}');
    assert(find_char(text, 2, '}') == close) by {
        let found = find_char(text, 2, '}');
        if found < close {
            assert(text[found] == inner[found - 2]);
        }
    }
    let token = scan(text, 0)->0;
    assert(dollars_end(text, 0) == 1);
    assert(token.kind == TokenType::Expr);
    assert(token.payload =~= inner);
    assert(token.next == text.len());
    lemma_plain_text_is_kept(inner, bindings, cwd);
    assert(pieces_from(text, token.next, bindings, cwd) == Some(Seq::<char>::empty()));
    match value_of(requoted(inner), bindings) {
        Some(printed) => {
            assert(unquoted(printed) + Seq::<char>::empty() =~= unquoted(printed));
        },
        None => {},
    }
}

/// Whether substituting `text` asks for the working directory: whether
/// one of its extension spans, or one inside a span of it, names `cwd`.
pub open spec fn asks_cwd_spec(text: Seq<char>, bindings: Map<Seq<char>, Seq<char>>) -> bool
    decreases text.len(), text.len() + 1,
{
    asks_from(text, 0, bindings)
}

/// Whether a token of `text` from `pos` on asks for the working directory.
pub open spec fn asks_from(text: Seq<char>, pos: int, bindings: Map<Seq<char>, Seq<char>>) -> bool
    decreases text.len(), text.len() - pos,
    when 0 <= pos
    via asks_from_decreases
{
    match scan(text, pos) {
        None => false,
        Some(token) => {
            let inside = token.kind == TokenType::Expr || token.kind == TokenType::Extension;
            (inside && asks_cwd_spec(token.payload, bindings)) || (token.kind
                == TokenType::Extension && requoted(
                eval_text_spec(token.payload, bindings, Seq::empty()),
            ) == "cwd"@) || asks_from(text, token.next, bindings)
        },
    }
}

#[via_fn]
proof fn asks_from_decreases(text: Seq<char>, pos: int, bindings: Map<Seq<char>, Seq<char>>) {
    if pos < text.len() {
        lemma_scan_bounds(text, pos);
    }
}

/// A text without `$` asks for no working directory.
pub proof fn lemma_plain_text_asks_nothing(text: Seq<char>, bindings: Map<Seq<char>, Seq<char>>)
    requires
        dollar_free(text),
    ensures
        !asks_cwd_spec(text, bindings),
{
    if text.len() > 0 {
        lemma_dollars_end(text, 0);
        lemma_find_char(text, 0, '$');
        let token = scan(text, 0)->0;
        assert(token.kind == TokenType::Text);
        assert(token.next == text.len());
        assert(!asks_from(text, token.next, bindings));
    }
}

/// Whether substituting `s` asks for the working directory.
pub fn asks_cwd(s: &str, symbol_map: &NameMap<PropertyValue>) -> (asks: bool)
    ensures
        asks == asks_cwd_spec(s@, symbol_map@),
    decreases s@.len(),
{
    let mut lexer = Lexer::new(s);
    loop
        invariant
            lexer.text() == s@,
            0 <= lexer.position() <= s@.len(),
            asks_cwd_spec(s@, symbol_map@) == asks_from(s@, lexer.position(), symbol_map@),
        decreases s@.len() - lexer.position(),
    {
        proof {
            if lexer.position() < s@.len() {
                lemma_scan_bounds(s@, lexer.position());
            }
        }
        match lexer.next() {
            None => {
                return false;
            },
            Some((kind, payload)) => {
                match kind {
                    TokenType::Expr => {
                        if asks_cwd(payload.as_str(), symbol_map) {
                            return true;
                        }
                    },
                    TokenType::Extension => {
                        if asks_cwd(payload.as_str(), symbol_map) {
                            return true;
                        }
                        let inside = requote(eval_text(payload.as_str(), symbol_map, "").as_str());
                        proof {
                            reveal_strlit("");
                            assert(""@ =~= Seq::<char>::empty());
                        }
                        if same_text(inside.as_str(), "cwd") {
                            return true;
                        }
                    },
                    _ => {},
                }
            },
        }
    }
}

/// What an expression span contributes, given what the evaluator made of
/// it: `None` where it made nothing of it.
pub fn expression_output(outcome: Option<String>) -> (piece: Option<String>)
    ensures
        piece.deep_view() == expression_text(outcome.deep_view()),
{
    match outcome {
        Some(printed) => Some(remove_quotation_marks(printed.as_str())),
        None => None,
    }
}

/// What an extension span contributes, given the name in it.
pub fn extension_output(name: &str, cwd: &str) -> (piece: String)
    ensures
        piece@ == extension_text(name@, cwd@),
{
    if same_text(name, "cwd") {
        cwd.to_owned()
    } else {
        String::new()
    }
}

/// The truth value that stands for what the evaluator made of a condition.
pub fn truth_or_false(outcome: Option<bool>) -> (truth: bool)
    ensures
        truth == (outcome == Some(true)),
{
    match outcome {
        Some(truth) => truth,
        None => false,
    }
}

/// The properties of `symbol_map` up to the `count`-th name.
spec fn bound_so_far(
    symbol_map: NameMap<PropertyValue>,
    count: int,
) -> Map<Seq<char>, Seq<char>> {
    symbol_map@.restrict(symbol_map.names().take(count).to_set())
}

/// An evaluation context that holds each property as a variable: as a
/// number where its text reads as one, as a string where it does not.
fn property_context(symbol_map: &NameMap<PropertyValue>) -> (context: evalexpr::HashMapContext)
    ensures
        context_numbers(context) == numbers_of(symbol_map@),
        context_strings(context) == strings_of(symbol_map@),
        context_guards(context) == shift_guards(),
{
    let mut context = guarded_context();
    let n: usize = symbol_map.len();
    let mut i: usize = 0;
    proof {
        assert(bound_so_far(*symbol_map, 0) =~= Map::empty());
        assert(numbers_of(bound_so_far(*symbol_map, 0)) =~= Map::empty());
        assert(strings_of(bound_so_far(*symbol_map, 0)) =~= Map::empty());
    }
    while i < n
        invariant
            i <= n == symbol_map.names().len(),
            symbol_map.names().no_duplicates(),
            forall|name: Seq<char>|
                symbol_map@.contains_key(name) <==> symbol_map.names().contains(name),
            context_numbers(context) == numbers_of(bound_so_far(*symbol_map, i as int)),
            context_strings(context) == strings_of(bound_so_far(*symbol_map, i as int)),
            context_guards(context) == shift_guards(),
        decreases n - i,
    {
        let name = symbol_map.name_at(i);
        let value = symbol_map.value_at(i);
        proof {
            let names = symbol_map.names();
            lemma_next_name(names, i as int);
            let earlier = bound_so_far(*symbol_map, i as int);
            let later = bound_so_far(*symbol_map, i + 1);
            assert(later =~= earlier.insert(names[i as int], symbol_map@[names[i as int]]));
            assert(!earlier.contains_key(names[i as int]));
            if number_text(value.raw_value@) {
                assert(numbers_of(later) =~= numbers_of(earlier).insert(name@, value.raw_value@));
                assert(strings_of(later) =~= strings_of(earlier));
            } else {
                assert(strings_of(later) =~= strings_of(earlier).insert(name@, value.raw_value@));
                assert(numbers_of(later) =~= numbers_of(earlier));
            }
        }
        if reads_as_number(value.raw_value.as_str()) {
            bind_number(&mut context, name.as_str(), value.raw_value.as_str());
        } else {
            bind_string(&mut context, name.as_str(), value.raw_value.as_str());
        }
        i = i + 1;
    }
    proof {
        assert(symbol_map.names().take(n as int) =~= symbol_map.names());
        assert(bound_so_far(*symbol_map, n as int) =~= symbol_map@);
    }
    context
}

/// `s` with its spans substituted under the properties of `symbol_map`, with
/// `cwd` as the working directory. Where an expression span of `s` does not
/// evaluate, the outcome is `s` as it is.
pub fn eval_text(s: &str, symbol_map: &NameMap<PropertyValue>, cwd: &str) -> (out: String)
    ensures
        out@ == eval_text_spec(s@, symbol_map@, cwd@),
    decreases s@.len(),
{
    let context = property_context(symbol_map);
    let mut lexer = Lexer::new(s);
    let mut out = String::new();
    let ghost whole = pieces_from(s@, 0, symbol_map@, cwd@);
    assert(joined(out@, whole) == whole) by {
        if whole is Some {
            assert(out@ + whole->0 =~= whole->0);
        }
    }
    loop
        invariant
            lexer.text() == s@,
            0 <= lexer.position() <= s@.len(),
            context_numbers(context) == numbers_of(symbol_map@),
            context_strings(context) == strings_of(symbol_map@),
            context_guards(context) == shift_guards(),
            whole == pieces_from(s@, 0, symbol_map@, cwd@),
            whole == joined(out@, pieces_from(s@, lexer.position(), symbol_map@, cwd@)),
        ensures
            whole == Some(out@),
            whole == pieces_from(s@, 0, symbol_map@, cwd@),
        decreases s@.len() - lexer.position(),
    {
        let ghost pos = lexer.position();
        let ghost before = out@;
        proof {
            if pos < s@.len() {
                lemma_scan_bounds(s@, pos);
            }
        }
        match lexer.next() {
            None => {
                assert(out@ + Seq::<char>::empty() =~= out@);
                break ;
            },
            Some((kind, payload)) => {
                let piece: Option<String> = match kind {
                    TokenType::Text => Some(payload),
                    TokenType::Expr => {
                        let inside = requote(eval_text(payload.as_str(), symbol_map, cwd).as_str());
                        expression_output(evaluate(inside.as_str(), &context))
                    },
                    TokenType::Extension => {
                        let inside = requote(eval_text(payload.as_str(), symbol_map, cwd).as_str());
                        Some(extension_output(inside.as_str(), cwd))
                    },
                    TokenType::DollarDollarBrace => Some(String::new()),
                };
                match piece {
                    Some(text) => {
                        out.append(text.as_str());
                        proof {
                            let rest = pieces_from(s@, lexer.position(), symbol_map@, cwd@);
                            if rest is Some {
                                assert(before + (text@ + rest->0) =~= (before + text@) + rest->0);
                            }
                        }
                    },
                    None => {
                        return s.to_owned();
                    },
                }
            },
        }
    }
    out
}

/// Whether `s`, with its spans substituted, evaluates to true.
pub fn get_boolean_value(s: &str, symbol_map: &NameMap<PropertyValue>, cwd: &str) -> (truth: bool)
    ensures
        truth == truth_of(eval_text_spec(s@, symbol_map@, cwd@)),
{
    let res_text = eval_text(s, symbol_map, cwd);
    truth_or_false(evaluate_boolean(res_text.as_str(), guarded_context()))
}

} // verus!
