//! Splits a text into literal runs and `$`-introduced spans.

use vstd::prelude::*;
use crate::text::{collect_text, to_chars};

verus! {

/// What a token stands for.
#[derive(Clone, Copy, Debug, PartialEq, Eq, Structural)]
pub enum TokenType {
    /// A run of two or more `$` in front of `{` or `(`.
    DollarDollarBrace,
    /// A `${...}` span.
    Expr,
    /// A `$(...)` span.
    Extension,
    /// Literal text.
    Text,
}

/// `{` or `(`: what opens a span after a `$`.
pub open spec fn is_opener(c: char) -> bool {
    c == '{' || c == '('
}

/// The first index at or after `from` that holds `c`, or the length of `s`
/// where there is none.
pub open spec fn find_char(s: Seq<char>, from: int, c: char) -> int
    decreases s.len() - from,
{
    if from < 0 || from >= s.len() {
        s.len() as int
    } else if s[from] == c {
        from
    } else {
        find_char(s, from + 1, c)
    }
}

/// The first index at or after `from` that holds no `$`, or the length of `s`.
pub open spec fn dollars_end(s: Seq<char>, from: int) -> int
    decreases s.len() - from,
{
    if from < 0 || from >= s.len() {
        s.len() as int
    } else if s[from] != '$' {
        from
    } else {
        dollars_end(s, from + 1)
    }
}

/// The first index at or after `from` that holds `$`, `{` or `(`, or the
/// length of `s`.
pub open spec fn plain_end(s: Seq<char>, from: int) -> int
    decreases s.len() - from,
{
    if from < 0 || from >= s.len() {
        s.len() as int
    } else if s[from] == '$' || is_opener(s[from]) {
        from
    } else {
        plain_end(s, from + 1)
    }
}

/// Where the literal run that begins at `start` ends: in front of the next
/// `$` where it begins with another character; where it begins with a `$`,
/// in front of the next `$`, `{` or `(` behind that one.
pub open spec fn text_end(s: Seq<char>, start: int) -> int {
    if s[start] != '$' {
        find_char(s, start, '$')
    } else {
        plain_end(s, start + 1)
    }
}

/// The characters that a token was read from: the payload of literal text,
/// the payload between `${` and `}` or between `$(` and `)` for a span, and
/// the payload behind one more `$` for an escaped dollar.
pub open spec fn source(kind: TokenType, payload: Seq<char>) -> Seq<char> {
    match kind {
        TokenType::Text => payload,
        TokenType::Expr => seq!['$', '{'] + payload + seq!['}'],
        TokenType::Extension => seq!['$', '('] + payload + seq![')'],
        TokenType::DollarDollarBrace => seq!['$'] + payload,
    }
}

/// A token as the tokenizer reports it: its kind, its payload, and the
/// position behind it.
pub struct Scanned {
    pub kind: TokenType,
    pub payload: Seq<char>,
    pub next: int,
}

/// The token that begins at `pos`, by the first rule that applies:
///
/// 1. two or more `$` in front of an opener: the payload is the run without
///    its first `$`, opener included;
/// 2. `${` up to the next `}`: the payload is what stands between them;
/// 3. `$(` up to the next `)`, likewise;
/// 4. literal text: the run of characters without `$` that begins at `pos`,
///    or the `$` at `pos` with the characters behind it up to the next `$`,
///    `{` or `(`.
///
/// Every token begins at `pos`. `None` exactly at the end of the text.
pub open spec fn scan(s: Seq<char>, pos: int) -> Option<Scanned> {
    if pos < 0 || pos >= s.len() {
        None
    } else if dollars_end(s, pos) >= pos + 2 && dollars_end(s, pos) < s.len() && is_opener(
        s[dollars_end(s, pos)],
    ) {
        Some(
            Scanned {
                kind: TokenType::DollarDollarBrace,
                payload: s.subrange(pos + 1, dollars_end(s, pos) + 1),
                next: dollars_end(s, pos) + 1,
            },
        )
    } else if s[pos] == '$' && pos + 1 < s.len() && s[pos + 1] == '{' && find_char(s, pos + 2, '}')
        < s.len() {
        Some(
            Scanned {
                kind: TokenType::Expr,
                payload: s.subrange(pos + 2, find_char(s, pos + 2, '}')),
                next: find_char(s, pos + 2, '}') + 1,
            },
        )
    } else if s[pos] == '$' && pos + 1 < s.len() && s[pos + 1] == '(' && find_char(s, pos + 2, ')')
        < s.len() {
        Some(
            Scanned {
                kind: TokenType::Extension,
                payload: s.subrange(pos + 2, find_char(s, pos + 2, ')')),
                next: find_char(s, pos + 2, ')') + 1,
            },
        )
    } else {
        Some(
            Scanned {
                kind: TokenType::Text,
                payload: s.subrange(pos, text_end(s, pos)),
                next: text_end(s, pos),
            },
        )
    }
}

/// What `scan` promises of the token at a position before the end: there is
/// one, it ends behind the position, what lies between the position and its
/// end is what the token was read from, and the payload of a span or of an
/// escaped dollar is shorter than the text.
pub proof fn lemma_scan_bounds(s: Seq<char>, pos: int)
    requires
        0 <= pos < s.len(),
    ensures
        scan(s, pos) is Some,
        pos < scan(s, pos)->0.next <= s.len(),
        s.subrange(pos, scan(s, pos)->0.next) == source(
            scan(s, pos)->0.kind,
            scan(s, pos)->0.payload,
        ),
        scan(s, pos)->0.kind == TokenType::Text ==> scan(s, pos)->0.next - pos == scan(
            s,
            pos,
        )->0.payload.len(),
        scan(s, pos)->0.kind == TokenType::Expr || scan(s, pos)->0.kind == TokenType::Extension
            ==> scan(s, pos)->0.next - pos == scan(s, pos)->0.payload.len() + 3,
        scan(s, pos)->0.kind == TokenType::DollarDollarBrace ==> scan(s, pos)->0.next - pos
            == scan(s, pos)->0.payload.len() + 1,
        scan(s, pos)->0.kind != TokenType::Text ==> scan(s, pos)->0.payload.len() < s.len(),
{
    lemma_dollars_end(s, pos);
    if pos + 2 <= s.len() {
        lemma_find_char(s, pos + 2, '}');
        lemma_find_char(s, pos + 2, ')');
    }
    lemma_find_char(s, pos, '$');
    lemma_plain_end(s, pos + 1);
    let token = scan(s, pos)->0;
    assert(s.subrange(pos, token.next) =~= source(token.kind, token.payload));
}

/// What the tokens from `pos` on were read from, in a row.
pub open spec fn sources_from(s: Seq<char>, pos: int) -> Seq<char>
    decreases s.len() - pos,
    when 0 <= pos
    via sources_from_decreases
{
    match scan(s, pos) {
        None => Seq::empty(),
        Some(token) => source(token.kind, token.payload) + sources_from(s, token.next),
    }
}

#[via_fn]
proof fn sources_from_decreases(s: Seq<char>, pos: int) {
    if pos < s.len() {
        lemma_scan_bounds(s, pos);
    }
}

/// The tokens cover the text: each begins where the one before it ends, and
/// what they were read from, in a row, is the text from the position on.
pub proof fn lemma_tokens_cover(s: Seq<char>, pos: int)
    requires
        0 <= pos <= s.len(),
    ensures
        sources_from(s, pos) == s.subrange(pos, s.len() as int),
    decreases s.len() - pos,
{
    if pos < s.len() {
        lemma_scan_bounds(s, pos);
        let token = scan(s, pos)->0;
        lemma_tokens_cover(s, token.next);
        assert(s.subrange(pos, token.next) + s.subrange(token.next, s.len() as int)
            =~= s.subrange(pos, s.len() as int));
    } else {
        assert(s.subrange(pos, s.len() as int) =~= Seq::<char>::empty());
    }
}

/// `find_char` stays within the text, lands on `c` or on the end, and passes
/// over no `c`.
pub proof fn lemma_find_char(s: Seq<char>, from: int, c: char)
    requires
        0 <= from <= s.len(),
    ensures
        from <= find_char(s, from, c) <= s.len(),
        find_char(s, from, c) < s.len() ==> s[find_char(s, from, c)] == c,
        forall|k: int| from <= k < find_char(s, from, c) ==> s[k] != c,
    decreases s.len() - from,
{
    if from < s.len() && s[from] != c {
        lemma_find_char(s, from + 1, c);
    }
}

/// `dollars_end` stays within the text, lands behind a run of `$`, and passes
/// over nothing else.
pub proof fn lemma_dollars_end(s: Seq<char>, from: int)
    requires
        0 <= from <= s.len(),
    ensures
        from <= dollars_end(s, from) <= s.len(),
        dollars_end(s, from) < s.len() ==> s[dollars_end(s, from)] != '$',
        forall|k: int| from <= k < dollars_end(s, from) ==> s[k] == '$',
    decreases s.len() - from,
{
    if from < s.len() && s[from] == '$' {
        lemma_dollars_end(s, from + 1);
    }
}

/// `plain_end` stays within the text, lands on `$`, an opener or the end, and
/// passes over none of them.
pub proof fn lemma_plain_end(s: Seq<char>, from: int)
    requires
        0 <= from <= s.len(),
    ensures
        from <= plain_end(s, from) <= s.len(),
        plain_end(s, from) < s.len() ==> s[plain_end(s, from)] == '$' || is_opener(
            s[plain_end(s, from)],
        ),
        forall|k: int| from <= k < plain_end(s, from) ==> s[k] != '$' && !is_opener(s[k]),
    decreases s.len() - from,
{
    if from < s.len() && !(s[from] == '$' || is_opener(s[from])) {
        lemma_plain_end(s, from + 1);
    }
}

/// A tokenizer over one text. It is made for one pass: `next` hands out the
/// tokens in order and then `None`.
pub struct Lexer {
    input_str: Vec<char>,
    position: usize,
}

impl Lexer {
    #[verifier::type_invariant]
    spec fn well_formed(&self) -> bool {
        self.position <= self.input_str@.len()
    }

    /// The text that is being split.
    pub closed spec fn text(&self) -> Seq<char> {
        self.input_str@
    }

    /// How many characters of the text have been consumed.
    pub closed spec fn position(&self) -> int {
        self.position as int
    }

    /// A tokenizer at the start of `input_str`.
    pub fn new(input_str: &str) -> (lexer: Lexer)
        ensures
            lexer.text() == input_str@,
            lexer.position() == 0,
    {
        Lexer { input_str: to_chars(input_str), position: 0 }
    }

    /// The next token and its payload, or `None` at the end of the text.
    pub fn next(&mut self) -> (token: Option<(TokenType, String)>)
        ensures
            final(self).text() == old(self).text(),
            match scan(old(self).text(), old(self).position()) {
                None => token is None && final(self).position() == old(self).position(),
                Some(t) => token matches Some(found) && found.0 == t.kind && found.1@ == t.payload
                    && final(self).position() == t.next,
            },
    {
        proof {
            use_type_invariant(&*self);
        }
        let pos: usize = self.position;
        let len: usize = self.input_str.len();
        if pos >= len {
            return None;
        }
        proof {
            lemma_scan_bounds(self.input_str@, pos as int);
            lemma_dollars_end(self.input_str@, pos as int);
        }
        let run: usize = skip_dollars(&self.input_str, pos);
        let (kind, from, to, next): (TokenType, usize, usize, usize) = if run - pos >= 2 && run
            < len && (self.input_str[run] == '{' || self.input_str[run] == '(') {
            (TokenType::DollarDollarBrace, pos + 1, run + 1, run + 1)
        } else if self.input_str[pos] == '$' && pos + 1 < len && self.input_str[pos + 1] == '{'
            && find(&self.input_str, pos + 2, '}') < len {
            let close: usize = find(&self.input_str, pos + 2, '}');
            (TokenType::Expr, pos + 2, close, close + 1)
        } else if self.input_str[pos] == '$' && pos + 1 < len && self.input_str[pos + 1] == '('
            && find(&self.input_str, pos + 2, ')') < len {
            let close: usize = find(&self.input_str, pos + 2, ')');
            (TokenType::Extension, pos + 2, close, close + 1)
        } else {
            let end: usize = if self.input_str[pos] != '$' {
                find(&self.input_str, pos, '$')
            } else {
                skip_plain(&self.input_str, pos + 1)
            };
            (TokenType::Text, pos, end, end)
        };
        let payload: String = collect_text(&self.input_str, from, to);
        self.position = next;
        Some((kind, payload))
    }
}

/// The index that `find_char` names.
fn find(chars: &Vec<char>, from: usize, c: char) -> (at: usize)
    requires
        from <= chars@.len(),
    ensures
        at == find_char(chars@, from as int, c),
        from <= at <= chars@.len(),
{
    let mut i: usize = from;
    while i < chars.len() && chars[i] != c
        invariant
            from <= i <= chars@.len(),
            find_char(chars@, from as int, c) == find_char(chars@, i as int, c),
        decreases chars@.len() - i,
    {
        i = i + 1;
    }
    i
}

/// The index that `dollars_end` names.
fn skip_dollars(chars: &Vec<char>, from: usize) -> (at: usize)
    requires
        from <= chars@.len(),
    ensures
        at == dollars_end(chars@, from as int),
        from <= at <= chars@.len(),
{
    let mut i: usize = from;
    while i < chars.len() && chars[i] == '$'
        invariant
            from <= i <= chars@.len(),
            dollars_end(chars@, from as int) == dollars_end(chars@, i as int),
        decreases chars@.len() - i,
    {
        i = i + 1;
    }
    i
}

/// The index that `plain_end` names.
fn skip_plain(chars: &Vec<char>, from: usize) -> (at: usize)
    requires
        from <= chars@.len(),
    ensures
        at == plain_end(chars@, from as int),
        from <= at <= chars@.len(),
{
    let mut i: usize = from;
    while i < chars.len() && !(chars[i] == '$' || chars[i] == '{' || chars[i] == '(')
        invariant
            from <= i <= chars@.len(),
            plain_end(chars@, from as int) == plain_end(chars@, i as int),
        decreases chars@.len() - i,
    {
        i = i + 1;
    }
    i
}

} // verus!
