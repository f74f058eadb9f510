//! Tokenizer, abstract syntax tree, and recursive-descent parser.
//!
//! Source text is split on runs of whitespace into tokens; the parser walks
//! the token sequence with a single forward-moving cursor and produces the
//! tree, or a typed error. The exact behaviour of every executable routine is
//! pinned by a specification-level parser (`sp_program` and its helpers) over
//! the token sequence.

use vstd::prelude::*;
use vstd::string::StrSliceExecFns;
use vstd::string::StringExecFns;

verus! {

broadcast use vstd::std_specs::vec::group_vec_axioms;

// ---------------------------------------------------------------------------
// Whitespace and tokenizing
// ---------------------------------------------------------------------------

/// The Unicode `White_Space` characters, the set that `char::is_whitespace`
/// documents; tokens are the maximal runs of the other characters.
pub open spec fn is_space(c: char) -> bool {
    ||| c == ' '
    ||| c == '\t'
    ||| c == '\n'
    ||| c == '\u{0b}'
    ||| c == '\u{0c}'
    ||| c == '\r'
    ||| c == '\u{85}'
    ||| c == '\u{a0}'
    ||| c == '\u{1680}'
    ||| c == '\u{2000}'
    ||| c == '\u{2001}'
    ||| c == '\u{2002}'
    ||| c == '\u{2003}'
    ||| c == '\u{2004}'
    ||| c == '\u{2005}'
    ||| c == '\u{2006}'
    ||| c == '\u{2007}'
    ||| c == '\u{2008}'
    ||| c == '\u{2009}'
    ||| c == '\u{200a}'
    ||| c == '\u{2028}'
    ||| c == '\u{2029}'
    ||| c == '\u{202f}'
    ||| c == '\u{205f}'
    ||| c == '\u{3000}'
}

/// Decides `is_space` executably.
pub fn is_space_char(c: char) -> (r: bool)
    ensures
        r == is_space(c),
{
    c == ' ' || c == '\t' || c == '\n' || c == '\u{0b}' || c == '\u{0c}' || c == '\r'
        || c == '\u{85}' || c == '\u{a0}' || c == '\u{1680}' || c == '\u{2000}'
        || c == '\u{2001}' || c == '\u{2002}' || c == '\u{2003}' || c == '\u{2004}'
        || c == '\u{2005}' || c == '\u{2006}' || c == '\u{2007}' || c == '\u{2008}'
        || c == '\u{2009}' || c == '\u{200a}' || c == '\u{2028}' || c == '\u{2029}'
        || c == '\u{202f}' || c == '\u{205f}' || c == '\u{3000}'
}

/// The position of the first whitespace character at or after `i`, or the
/// text's length if there is none: the end of the token that starts at `i`.
pub open spec fn token_end(s: Seq<char>, i: int) -> int
    decreases s.len() - i,
{
    if i < 0 || i >= s.len() {
        s.len() as int
    } else if is_space(s[i]) {
        i
    } else {
        token_end(s, i + 1)
    }
}

/// The tokens of the text from position `i` on.
pub open spec fn spec_tokenize_from(s: Seq<char>, i: int) -> Seq<Seq<char>>
    decreases s.len() - i,
{
    if i < 0 || i >= s.len() {
        seq![]
    } else if is_space(s[i]) {
        spec_tokenize_from(s, i + 1)
    } else {
        let e = token_end(s, i);
        if e <= i || e > s.len() {
            seq![]
        } else {
            seq![s.subrange(i, e)] + spec_tokenize_from(s, e)
        }
    }
}

/// The token sequence of a source text: the maximal whitespace-free runs, in
/// order. A pure function of the text, so tokenizing is deterministic.
pub open spec fn spec_tokenize(s: Seq<char>) -> Seq<Seq<char>> {
    spec_tokenize_from(s, 0)
}

/// Tokenizing is deterministic and free of side effects: the token sequence
/// is a pure function of the source text, so tokenizing equal texts (in
/// particular, the same text twice) yields identical sequences. Together with
/// `Parser::tokenize`'s postcondition, which says the parser's new state is
/// exactly `spec_tokenize` of the text, this pins the behaviour of repeated
/// runs.
pub proof fn lemma_tokenize_deterministic(s1: Seq<char>, s2: Seq<char>)
    requires
        s1 == s2,
    ensures
        spec_tokenize(s1) == spec_tokenize(s2),
{
}

/// `token_end(s, a)` is the first whitespace position at or after `a`.
proof fn lemma_token_end_is(s: Seq<char>, a: int, b: int)
    requires
        0 <= a <= b <= s.len(),
        forall|k: int| a <= k < b ==> !is_space(s[k]),
        b == s.len() || is_space(s[b]),
    ensures
        token_end(s, a) == b,
    decreases b - a,
{
    if a == b {
    } else {
        lemma_token_end_is(s, a + 1, b);
    }
}

// ---------------------------------------------------------------------------
// Abstract syntax tree
// ---------------------------------------------------------------------------

/// An expression node. Numeric literals are stored as the IEEE-754 bit
/// pattern of the 64-bit floating-point value they denote, so that the
/// serialized form (the bits, little-endian) is fixed exactly.
#[derive(Debug, PartialEq)]
pub enum Expression {
    Number(u64),
    String(String),
    Identifier(String),
    Call { function: String, arguments: Vec<Expression> },
    Array { elements: Vec<Expression> },
}

/// A top-level or function-body statement.
#[derive(Debug, PartialEq)]
pub enum Statement {
    Let { name: String, value: Expression },
    Output(Expression),
    Function { name: String, params: Vec<String>, body: Vec<Statement> },
}

/// A parsed program: its statements in source order.
#[derive(Debug, PartialEq)]
pub struct AST {
    pub statements: Vec<Statement>,
}

/// The mathematical form of an expression, with text as character sequences.
pub enum SpExpr {
    Number(u64),
    Strng(Seq<char>),
    Identifier(Seq<char>),
    Call { function: Seq<char>, arguments: Seq<SpExpr> },
    Array { elements: Seq<SpExpr> },
}

/// The mathematical form of a statement.
pub enum SpStmt {
    Let { name: Seq<char>, value: SpExpr },
    Output(SpExpr),
    Function { name: Seq<char>, params: Seq<Seq<char>>, body: Seq<SpStmt> },
}

/// The mathematical view of an expression tree.
pub open spec fn expr_view(e: Expression) -> SpExpr
    decreases e,
{
    match e {
        Expression::Number(bits) => SpExpr::Number(bits),
        Expression::String(s) => SpExpr::Strng(s@),
        Expression::Identifier(s) => SpExpr::Identifier(s@),
        Expression::Call { function, arguments } => SpExpr::Call {
            function: function@,
            arguments: exprs_view(arguments@),
        },
        Expression::Array { elements } => SpExpr::Array { elements: exprs_view(elements@) },
    }
}

/// The mathematical view of a sequence of expressions.
pub open spec fn exprs_view(es: Seq<Expression>) -> Seq<SpExpr>
    decreases es,
{
    if es.len() == 0 {
        seq![]
    } else {
        seq![expr_view(es[0])] + exprs_view(es.drop_first())
    }
}

/// The mathematical view of a statement.
pub open spec fn stmt_view(s: Statement) -> SpStmt
    decreases s,
{
    match s {
        Statement::Let { name, value } => SpStmt::Let { name: name@, value: expr_view(value) },
        Statement::Output(e) => SpStmt::Output(expr_view(e)),
        Statement::Function { name, params, body } => SpStmt::Function {
            name: name@,
            params: params.deep_view(),
            body: stmts_view(body@),
        },
    }
}

/// The mathematical view of a sequence of statements.
pub open spec fn stmts_view(ss: Seq<Statement>) -> Seq<SpStmt>
    decreases ss,
{
    if ss.len() == 0 {
        seq![]
    } else {
        seq![stmt_view(ss[0])] + stmts_view(ss.drop_first())
    }
}

// ---------------------------------------------------------------------------
// Parse errors
// ---------------------------------------------------------------------------

/// A parse failure: the token sequence ran out where more input was required,
/// or a required token was missing at its expected position.
#[derive(Debug, PartialEq)]
pub enum ParseError {
    UnexpectedEndOfInput,
    ExpectedToken { expected: String, found: String },
}

/// The mathematical form of a parse failure.
pub enum SpParseError {
    UnexpectedEndOfInput,
    ExpectedToken { expected: Seq<char>, found: Seq<char> },
}

/// The mathematical view of a parse failure.
pub open spec fn perr_view(e: ParseError) -> SpParseError {
    match e {
        ParseError::UnexpectedEndOfInput => SpParseError::UnexpectedEndOfInput,
        ParseError::ExpectedToken { expected, found } => SpParseError::ExpectedToken {
            expected: expected@,
            found: found@,
        },
    }
}

/// The outcome of a specification-level parsing routine: a parsed value and
/// the cursor position after it, or a failure.
pub enum SpParsed<T> {
    Parsed { v: T, next: int },
    Fail { err: SpParseError },
}

impl ParseError {
    /// A readable description of the failure.
    pub fn message(&self) -> (r: String)
        ensures
            (match self {
                ParseError::UnexpectedEndOfInput => r@ == "unexpected end of input"@,
                ParseError::ExpectedToken { expected, found } => r@ == "expected '"@ + expected@
                    + "', found '"@ + found@ + "'"@,
            }),
    {
        match self {
            ParseError::UnexpectedEndOfInput => String::from_str("unexpected end of input"),
            ParseError::ExpectedToken { expected, found } => {
                let mut m = String::from_str("expected '");
                m.append(expected.as_str());
                m.append("', found '");
                m.append(found.as_str());
                m.append("'");
                m
            },
        }
    }
}

// ---------------------------------------------------------------------------
// Quote trimming for string literals
// ---------------------------------------------------------------------------

/// The token with all leading and trailing double-quote characters removed:
/// the text of a string literal.
pub open spec fn trim_quotes(s: Seq<char>) -> Seq<char>
    decreases s.len(),
{
    if s.len() > 0 && s[0] == '"' {
        trim_quotes(s.drop_first())
    } else if s.len() > 0 && s[s.len() - 1] == '"' {
        trim_quotes(s.drop_last())
    } else {
        s
    }
}

proof fn lemma_trim_quotes_range(s: Seq<char>, a: int, b: int)
    requires
        0 <= a < b <= s.len(),
        forall|k: int| 0 <= k < a ==> s[k] == '"',
        forall|k: int| b <= k < s.len() ==> s[k] == '"',
        s[a] != '"',
        s[b - 1] != '"',
    ensures
        trim_quotes(s) == s.subrange(a, b),
    decreases s.len(),
{
    if a > 0 {
        lemma_trim_quotes_range(s.drop_first(), a - 1, b - 1);
        assert(s.drop_first().subrange(a - 1, b - 1) =~= s.subrange(a, b));
    } else if b < s.len() {
        lemma_trim_quotes_range(s.drop_last(), a, b);
        assert(s.drop_last().subrange(a, b) =~= s.subrange(a, b));
    } else {
        assert(s.subrange(0, s.len() as int) =~= s);
    }
}

proof fn lemma_trim_quotes_all(s: Seq<char>)
    requires
        forall|k: int| 0 <= k < s.len() ==> s[k] == '"',
    ensures
        trim_quotes(s) == Seq::<char>::empty(),
    decreases s.len(),
{
    if s.len() > 0 {
        lemma_trim_quotes_all(s.drop_first());
    } else {
        assert(s =~= Seq::<char>::empty());
    }
}

/// Strips the surrounding double-quote characters from a string-literal token.
fn trim_quote_chars(t: &String) -> (r: String)
    ensures
        r@ == trim_quotes(t@),
{
    let s = t.as_str();
    let n = s.unicode_len();
    let mut a: usize = 0;
    while a < n && s.get_char(a) == '"'
        invariant
            a <= n,
            n == s@.len(),
            s@ == t@,
            forall|k: int| 0 <= k < a ==> s@[k] == '"',
        decreases n - a,
    {
        a += 1;
    }
    if a == n {
        proof {
            lemma_trim_quotes_all(t@);
        }
        return String::new();
    }
    let mut b: usize = n;
    while b > a && s.get_char(b - 1) == '"'
        invariant
            a <= b <= n,
            n == s@.len(),
            s@ == t@,
            a < n && s@[a as int] != '"',
            forall|k: int| b <= k < n ==> s@[k] == '"',
        decreases b,
    {
        b -= 1;
    }
    proof {
        lemma_trim_quotes_range(t@, a as int, b as int);
    }
    let piece = s.substring_char(a, b);
    piece.to_owned()
}

// ---------------------------------------------------------------------------
// The specification-level parser
// ---------------------------------------------------------------------------

/// The caller-supplied numeric reading of the token at position `p`: the
/// IEEE-754 bit pattern of the literal's value where the token reads as a
/// number, `None` otherwise or past the end of the table.
pub open spec fn num_at(nums: Seq<Option<u64>>, p: int) -> Option<u64> {
    if 0 <= p && p < nums.len() {
        nums[p]
    } else {
        None
    }
}

/// The token at position `p`, or the empty sequence past the end.
pub open spec fn spec_peek(toks: Seq<Seq<char>>, p: int) -> Seq<char> {
    if 0 <= p && p < toks.len() {
        toks[p]
    } else {
        Seq::empty()
    }
}

/// Parses one statement at `p`: a `let`, `output` or `fn` head token decides.
pub open spec fn sp_stmt(toks: Seq<Seq<char>>, nums: Seq<Option<u64>>, p: int) -> SpParsed<SpStmt>
    decreases toks.len() - p, 3int,
{
    if p < 0 || p >= toks.len() {
        SpParsed::Fail { err: SpParseError::UnexpectedEndOfInput }
    } else if toks[p] == "let"@ {
        sp_let(toks, nums, p)
    } else if toks[p] == "output"@ {
        sp_output(toks, nums, p)
    } else if toks[p] == "fn"@ {
        sp_function(toks, nums, p)
    } else {
        SpParsed::Fail {
            err: SpParseError::ExpectedToken { expected: "statement"@, found: toks[p] },
        }
    }
}

/// Parses `"let" IDENT "=" expression` starting at the `let` token.
pub open spec fn sp_let(toks: Seq<Seq<char>>, nums: Seq<Option<u64>>, p: int) -> SpParsed<SpStmt>
    decreases toks.len() - p, 2int,
{
    if p < 0 || p + 2 >= toks.len() {
        SpParsed::Fail { err: SpParseError::UnexpectedEndOfInput }
    } else if toks[p + 2] != "="@ {
        SpParsed::Fail {
            err: SpParseError::ExpectedToken { expected: "="@, found: toks[p + 2] },
        }
    } else {
        match sp_expr(toks, nums, p + 3) {
            SpParsed::Parsed { v, next } => SpParsed::Parsed {
                v: SpStmt::Let { name: toks[p + 1], value: v },
                next,
            },
            SpParsed::Fail { err } => SpParsed::Fail { err },
        }
    }
}

/// Parses `"output" expression` starting at the `output` token.
pub open spec fn sp_output(toks: Seq<Seq<char>>, nums: Seq<Option<u64>>, p: int) -> SpParsed<SpStmt>
    decreases toks.len() - p, 2int,
{
    if p < 0 || p >= toks.len() {
        SpParsed::Fail { err: SpParseError::UnexpectedEndOfInput }
    } else {
        match sp_expr(toks, nums, p + 1) {
            SpParsed::Parsed { v, next } => SpParsed::Parsed { v: SpStmt::Output(v), next },
            SpParsed::Fail { err } => SpParsed::Fail { err },
        }
    }
}

/// Parses a function declaration starting at the `fn` token.
pub open spec fn sp_function(toks: Seq<Seq<char>>, nums: Seq<Option<u64>>, p: int) -> SpParsed<SpStmt>
    decreases toks.len() - p, 2int,
{
    if p < 0 || p + 2 >= toks.len() {
        SpParsed::Fail { err: SpParseError::UnexpectedEndOfInput }
    } else if toks[p + 2] != "("@ {
        SpParsed::Fail {
            err: SpParseError::ExpectedToken { expected: "("@, found: toks[p + 2] },
        }
    } else {
        match sp_params(toks, nums, p + 3) {
            SpParsed::Parsed { v: ps, next: q } => {
                if q <= p + 3 || q > toks.len() {
                    // does not arise on a success: see lemma_params_progress
                    SpParsed::Fail { err: SpParseError::UnexpectedEndOfInput }
                } else if q >= toks.len() {
                    SpParsed::Fail { err: SpParseError::UnexpectedEndOfInput }
                } else if toks[q] != "{"@ {
                    SpParsed::Fail {
                        err: SpParseError::ExpectedToken { expected: "{"@, found: toks[q] },
                    }
                } else {
                    match sp_block(toks, nums, q + 1) {
                        SpParsed::Parsed { v: body, next } => SpParsed::Parsed {
                            v: SpStmt::Function { name: toks[p + 1], params: ps, body },
                            next,
                        },
                        SpParsed::Fail { err } => SpParsed::Fail { err },
                    }
                }
            },
            SpParsed::Fail { err } => SpParsed::Fail { err },
        }
    }
}

/// Parses parameter names up to and including the closing `)`.
pub open spec fn sp_params(toks: Seq<Seq<char>>, nums: Seq<Option<u64>>, p: int) -> SpParsed<Seq<Seq<char>>>
    decreases toks.len() - p, 2int,
{
    if p < 0 || p >= toks.len() {
        SpParsed::Fail { err: SpParseError::UnexpectedEndOfInput }
    } else if toks[p] == ")"@ {
        SpParsed::Parsed { v: Seq::empty(), next: p + 1 }
    } else {
        let m = p + 1;
        let m2 = if m < toks.len() && toks[m] == ","@ {
            m + 1
        } else {
            m
        };
        match sp_params(toks, nums, m2) {
            SpParsed::Parsed { v, next } => SpParsed::Parsed { v: seq![toks[p]] + v, next },
            SpParsed::Fail { err } => SpParsed::Fail { err },
        }
    }
}

/// Parses body statements up to and including the closing `}`.
pub open spec fn sp_block(toks: Seq<Seq<char>>, nums: Seq<Option<u64>>, p: int) -> SpParsed<Seq<SpStmt>>
    decreases toks.len() - p, 4int,
{
    if p < 0 || p >= toks.len() {
        SpParsed::Fail { err: SpParseError::UnexpectedEndOfInput }
    } else if toks[p] == "}"@ {
        SpParsed::Parsed { v: Seq::empty(), next: p + 1 }
    } else {
        match sp_stmt(toks, nums, p) {
            SpParsed::Parsed { v: s, next: m } => {
                if m <= p || m > toks.len() {
                    // does not arise on a success: see lemma_stmt_progress
                    SpParsed::Fail { err: SpParseError::UnexpectedEndOfInput }
                } else {
                    match sp_block(toks, nums, m) {
                        SpParsed::Parsed { v: rest, next } => SpParsed::Parsed {
                            v: seq![s] + rest,
                            next,
                        },
                        SpParsed::Fail { err } => SpParsed::Fail { err },
                    }
                }
            },
            SpParsed::Fail { err } => SpParsed::Fail { err },
        }
    }
}

/// Parses statements until the token sequence is exhausted: a whole program.
pub open spec fn sp_program(toks: Seq<Seq<char>>, nums: Seq<Option<u64>>, p: int) -> SpParsed<Seq<SpStmt>>
    decreases toks.len() - p, 4int,
{
    if p < 0 || p >= toks.len() {
        SpParsed::Parsed { v: Seq::empty(), next: p }
    } else {
        match sp_stmt(toks, nums, p) {
            SpParsed::Parsed { v: s, next: m } => {
                if m <= p || m > toks.len() {
                    // does not arise on a success: see lemma_stmt_progress
                    SpParsed::Fail { err: SpParseError::UnexpectedEndOfInput }
                } else {
                    match sp_program(toks, nums, m) {
                        SpParsed::Parsed { v: rest, next } => SpParsed::Parsed {
                            v: seq![s] + rest,
                            next,
                        },
                        SpParsed::Fail { err } => SpParsed::Fail { err },
                    }
                }
            },
            SpParsed::Fail { err } => SpParsed::Fail { err },
        }
    }
}

/// Parses one expression at `p`. A token whose supplied numeric reading is
/// `Some` is a numeric literal; then a leading `"` marks a string literal;
/// then a following `(` marks a call; then `[` marks an array literal;
/// anything else is an identifier reference.
pub open spec fn sp_expr(toks: Seq<Seq<char>>, nums: Seq<Option<u64>>, p: int) -> SpParsed<SpExpr>
    decreases toks.len() - p, 1int,
{
    if p < 0 || p >= toks.len() {
        SpParsed::Fail { err: SpParseError::UnexpectedEndOfInput }
    } else {
        let t = toks[p];
        match num_at(nums, p) {
            Some(bits) => SpParsed::Parsed { v: SpExpr::Number(bits), next: p + 1 },
            None => {
                if t.len() > 0 && t[0] == '"' {
                    SpParsed::Parsed { v: SpExpr::Strng(trim_quotes(t)), next: p + 1 }
                } else if spec_peek(toks, p + 1) == "("@ {
                    sp_call(toks, nums, p)
                } else if t == "["@ {
                    sp_array(toks, nums, p)
                } else {
                    SpParsed::Parsed { v: SpExpr::Identifier(t), next: p + 1 }
                }
            },
        }
    }
}

/// Parses `IDENT "(" arguments ")"` starting at the callee name.
pub open spec fn sp_call(toks: Seq<Seq<char>>, nums: Seq<Option<u64>>, p: int) -> SpParsed<SpExpr>
    decreases toks.len() - p, 0int,
{
    if p < 0 || p + 1 >= toks.len() {
        SpParsed::Fail { err: SpParseError::UnexpectedEndOfInput }
    } else {
        match sp_call_args(toks, nums, p + 2) {
            SpParsed::Parsed { v: args, next } => SpParsed::Parsed {
                v: SpExpr::Call { function: toks[p], arguments: args },
                next,
            },
            SpParsed::Fail { err } => SpParsed::Fail { err },
        }
    }
}

/// Parses call arguments up to and including the closing `)`.
pub open spec fn sp_call_args(toks: Seq<Seq<char>>, nums: Seq<Option<u64>>, p: int) -> SpParsed<Seq<SpExpr>>
    decreases toks.len() - p, 2int,
{
    if p < 0 || p >= toks.len() {
        SpParsed::Fail { err: SpParseError::UnexpectedEndOfInput }
    } else if toks[p] == ")"@ {
        SpParsed::Parsed { v: Seq::empty(), next: p + 1 }
    } else {
        match sp_expr(toks, nums, p) {
            SpParsed::Parsed { v: e, next: m } => {
                if m <= p || m > toks.len() {
                    // does not arise on a success: see lemma_expr_progress
                    SpParsed::Fail { err: SpParseError::UnexpectedEndOfInput }
                } else {
                    let m2 = if m < toks.len() && toks[m] == ","@ {
                        m + 1
                    } else {
                        m
                    };
                    match sp_call_args(toks, nums, m2) {
                        SpParsed::Parsed { v: rest, next } => SpParsed::Parsed {
                            v: seq![e] + rest,
                            next,
                        },
                        SpParsed::Fail { err } => SpParsed::Fail { err },
                    }
                }
            },
            SpParsed::Fail { err } => SpParsed::Fail { err },
        }
    }
}

/// Parses `"[" elements "]"` starting at the opening bracket.
pub open spec fn sp_array(toks: Seq<Seq<char>>, nums: Seq<Option<u64>>, p: int) -> SpParsed<SpExpr>
    decreases toks.len() - p, 0int,
{
    if p < 0 || p >= toks.len() {
        SpParsed::Fail { err: SpParseError::UnexpectedEndOfInput }
    } else {
        match sp_array_elems(toks, nums, p + 1) {
            SpParsed::Parsed { v: elements, next } => SpParsed::Parsed {
                v: SpExpr::Array { elements },
                next,
            },
            SpParsed::Fail { err } => SpParsed::Fail { err },
        }
    }
}

/// Parses array elements up to and including the closing `]`.
pub open spec fn sp_array_elems(toks: Seq<Seq<char>>, nums: Seq<Option<u64>>, p: int) -> SpParsed<Seq<SpExpr>>
    decreases toks.len() - p, 2int,
{
    if p < 0 || p >= toks.len() {
        SpParsed::Fail { err: SpParseError::UnexpectedEndOfInput }
    } else if toks[p] == "]"@ {
        SpParsed::Parsed { v: Seq::empty(), next: p + 1 }
    } else {
        match sp_expr(toks, nums, p) {
            SpParsed::Parsed { v: e, next: m } => {
                if m <= p || m > toks.len() {
                    // does not arise on a success: see lemma_expr_progress
                    SpParsed::Fail { err: SpParseError::UnexpectedEndOfInput }
                } else {
                    let m2 = if m < toks.len() && toks[m] == ","@ {
                        m + 1
                    } else {
                        m
                    };
                    match sp_array_elems(toks, nums, m2) {
                        SpParsed::Parsed { v: rest, next } => SpParsed::Parsed {
                            v: seq![e] + rest,
                            next,
                        },
                        SpParsed::Fail { err } => SpParsed::Fail { err },
                    }
                }
            },
            SpParsed::Fail { err } => SpParsed::Fail { err },
        }
    }
}

// ---------------------------------------------------------------------------
// Progress of the specification-level parser
// ---------------------------------------------------------------------------

/// A successfully parsed statement consumes at least one token and leaves the
/// cursor within bounds; so the cursor moves strictly forward, and the inner
/// length guards of the parsing routines never fire on a success.
pub proof fn lemma_stmt_progress(toks: Seq<Seq<char>>, nums: Seq<Option<u64>>, p: int)
    ensures
        sp_stmt(toks, nums, p) matches SpParsed::Parsed { v: _, next } ==> p < next <= toks.len(),
    decreases toks.len() - p, 3int,
{
    if p < 0 || p >= toks.len() {
    } else if toks[p] == "let"@ {
        lemma_let_progress(toks, nums, p);
    } else if toks[p] == "output"@ {
        lemma_output_progress(toks, nums, p);
    } else if toks[p] == "fn"@ {
        lemma_function_progress(toks, nums, p);
    }
}

/// A successfully parsed `let` statement moves the cursor strictly forward.
pub proof fn lemma_let_progress(toks: Seq<Seq<char>>, nums: Seq<Option<u64>>, p: int)
    ensures
        sp_let(toks, nums, p) matches SpParsed::Parsed { v: _, next } ==> p < next <= toks.len(),
    decreases toks.len() - p, 2int,
{
    if p >= 0 && p + 2 < toks.len() {
        lemma_expr_progress(toks, nums, p + 3);
    }
}

/// A successfully parsed `output` statement moves the cursor strictly forward.
pub proof fn lemma_output_progress(toks: Seq<Seq<char>>, nums: Seq<Option<u64>>, p: int)
    ensures
        sp_output(toks, nums, p) matches SpParsed::Parsed { v: _, next } ==> p < next
            <= toks.len(),
    decreases toks.len() - p, 2int,
{
    if 0 <= p && p < toks.len() {
        lemma_expr_progress(toks, nums, p + 1);
    }
}

/// A successfully parsed function declaration moves the cursor strictly
/// forward.
pub proof fn lemma_function_progress(toks: Seq<Seq<char>>, nums: Seq<Option<u64>>, p: int)
    ensures
        sp_function(toks, nums, p) matches SpParsed::Parsed { v: _, next } ==> p < next
            <= toks.len(),
    decreases toks.len() - p, 2int,
{
    if p >= 0 && p + 2 < toks.len() {
        lemma_params_progress(toks, nums, p + 3);
        match sp_params(toks, nums, p + 3) {
            SpParsed::Parsed { v: _, next: q } => {
                if p + 3 < q <= toks.len() && q < toks.len() && toks[q] == "{"@ {
                    lemma_block_progress(toks, nums, q + 1);
                }
            },
            SpParsed::Fail { .. } => {},
        }
    }
}

/// A successfully parsed parameter list (through its closing `)`) moves the
/// cursor strictly forward.
pub proof fn lemma_params_progress(toks: Seq<Seq<char>>, nums: Seq<Option<u64>>, p: int)
    ensures
        sp_params(toks, nums, p) matches SpParsed::Parsed { v: _, next } ==> p < next
            <= toks.len(),
    decreases toks.len() - p, 2int,
{
    if 0 <= p && p < toks.len() && toks[p] != ")"@ {
        let m = p + 1;
        let m2 = if m < toks.len() && toks[m] == ","@ {
            m + 1
        } else {
            m
        };
        lemma_params_progress(toks, nums, m2);
    }
}

/// A successfully parsed block (through its closing `}`) moves the cursor
/// strictly forward.
pub proof fn lemma_block_progress(toks: Seq<Seq<char>>, nums: Seq<Option<u64>>, p: int)
    ensures
        sp_block(toks, nums, p) matches SpParsed::Parsed { v: _, next } ==> p < next <= toks.len(),
    decreases toks.len() - p, 4int,
{
    if 0 <= p && p < toks.len() && toks[p] != "}"@ {
        lemma_stmt_progress(toks, nums, p);
        match sp_stmt(toks, nums, p) {
            SpParsed::Parsed { v: _, next: m } => {
                if p < m <= toks.len() {
                    lemma_block_progress(toks, nums, m);
                }
            },
            SpParsed::Fail { .. } => {},
        }
    }
}

/// A successfully parsed program ends with the cursor no earlier and within
/// bounds; each of its statements moved the cursor strictly forward.
pub proof fn lemma_program_progress(toks: Seq<Seq<char>>, nums: Seq<Option<u64>>, p: int)
    requires
        0 <= p <= toks.len(),
    ensures
        sp_program(toks, nums, p) matches SpParsed::Parsed { v: _, next } ==> p <= next
            <= toks.len(),
    decreases toks.len() - p, 4int,
{
    if p < toks.len() {
        lemma_stmt_progress(toks, nums, p);
        match sp_stmt(toks, nums, p) {
            SpParsed::Parsed { v: _, next: m } => {
                if p < m <= toks.len() {
                    lemma_program_progress(toks, nums, m);
                }
            },
            SpParsed::Fail { .. } => {},
        }
    }
}

/// A successfully parsed expression moves the cursor strictly forward.
pub proof fn lemma_expr_progress(toks: Seq<Seq<char>>, nums: Seq<Option<u64>>, p: int)
    ensures
        sp_expr(toks, nums, p) matches SpParsed::Parsed { v: _, next } ==> p < next <= toks.len(),
    decreases toks.len() - p, 1int,
{
    if 0 <= p && p < toks.len() {
        let t = toks[p];
        if num_at(nums, p) is None && !(t.len() > 0 && t[0] == '"') {
            if spec_peek(toks, p + 1) == "("@ {
                lemma_call_progress(toks, nums, p);
            } else if t == "["@ {
                lemma_array_progress(toks, nums, p);
            }
        }
    }
}

/// A successfully parsed call expression moves the cursor strictly forward.
pub proof fn lemma_call_progress(toks: Seq<Seq<char>>, nums: Seq<Option<u64>>, p: int)
    ensures
        sp_call(toks, nums, p) matches SpParsed::Parsed { v: _, next } ==> p < next <= toks.len(),
    decreases toks.len() - p, 0int,
{
    if p >= 0 && p + 1 < toks.len() {
        lemma_call_args_progress(toks, nums, p + 2);
    }
}

/// A successfully parsed argument list (through its closing `)`) moves the
/// cursor strictly forward.
pub proof fn lemma_call_args_progress(toks: Seq<Seq<char>>, nums: Seq<Option<u64>>, p: int)
    ensures
        sp_call_args(toks, nums, p) matches SpParsed::Parsed { v: _, next } ==> p < next
            <= toks.len(),
    decreases toks.len() - p, 2int,
{
    if 0 <= p && p < toks.len() && toks[p] != ")"@ {
        lemma_expr_progress(toks, nums, p);
        match sp_expr(toks, nums, p) {
            SpParsed::Parsed { v: _, next: m } => {
                if p < m <= toks.len() {
                    let m2 = if m < toks.len() && toks[m] == ","@ {
                        m + 1
                    } else {
                        m
                    };
                    lemma_call_args_progress(toks, nums, m2);
                }
            },
            SpParsed::Fail { .. } => {},
        }
    }
}

/// A successfully parsed array expression moves the cursor strictly forward.
pub proof fn lemma_array_progress(toks: Seq<Seq<char>>, nums: Seq<Option<u64>>, p: int)
    ensures
        sp_array(toks, nums, p) matches SpParsed::Parsed { v: _, next } ==> p < next <= toks.len(),
    decreases toks.len() - p, 0int,
{
    if 0 <= p && p < toks.len() {
        lemma_array_elems_progress(toks, nums, p + 1);
    }
}

/// A successfully parsed element list (through its closing `]`) moves the
/// cursor strictly forward.
pub proof fn lemma_array_elems_progress(toks: Seq<Seq<char>>, nums: Seq<Option<u64>>, p: int)
    ensures
        sp_array_elems(toks, nums, p) matches SpParsed::Parsed { v: _, next } ==> p < next
            <= toks.len(),
    decreases toks.len() - p, 2int,
{
    if 0 <= p && p < toks.len() && toks[p] != "]"@ {
        lemma_expr_progress(toks, nums, p);
        match sp_expr(toks, nums, p) {
            SpParsed::Parsed { v: _, next: m } => {
                if p < m <= toks.len() {
                    let m2 = if m < toks.len() && toks[m] == ","@ {
                        m + 1
                    } else {
                        m
                    };
                    lemma_array_elems_progress(toks, nums, m2);
                }
            },
            SpParsed::Fail { .. } => {},
        }
    }
}

// ---------------------------------------------------------------------------
// Small executable helpers
// ---------------------------------------------------------------------------

/// Compares a token with a literal by character content.
fn str_eq(a: &String, b: &str) -> (r: bool)
    ensures
        r == (a@ == b@),
{
    let bs = String::from_str(b);
    *a == bs
}

/// Whether a token begins with a double-quote character.
fn starts_with_quote(t: &String) -> (r: bool)
    ensures
        r == (t@.len() > 0 && t@[0] == '"'),
{
    let s = t.as_str();
    if s.unicode_len() == 0 {
        false
    } else {
        s.get_char(0) == '"'
    }
}

// ---------------------------------------------------------------------------
// The parser
// ---------------------------------------------------------------------------

/// A recursive-descent parser: the token sequence and a single forward-moving
/// cursor into it.
pub struct Parser {
    pub tokens: Vec<String>,
    pub current: usize,
}

impl Parser {
    /// The token sequence as character sequences.
    pub open spec fn toks(&self) -> Seq<Seq<char>> {
        self.tokens.deep_view()
    }

    /// The cursor position.
    pub open spec fn pos(&self) -> int {
        self.current as int
    }

    /// The cursor never runs past the end of the token sequence.
    pub open spec fn wf(&self) -> bool {
        self.current <= self.tokens@.len()
    }

    /// A fresh parser with no tokens.
    pub fn new() -> (p: Parser)
        ensures
            p.toks() == Seq::<Seq<char>>::empty(),
            p.current == 0,
    {
        let p = Parser { tokens: Vec::new(), current: 0 };
        proof {
            assert(p.toks() =~= Seq::<Seq<char>>::empty());
        }
        p
    }

    /// Whether the cursor is past the last token.
    pub fn is_at_end(&self) -> (r: bool)
        ensures
            r == (self.pos() >= self.toks().len()),
    {
        self.current >= self.tokens.len()
    }

    /// The token under the cursor, or an empty string at the end.
    pub fn peek(&self) -> (t: String)
        ensures
            t@ == spec_peek(self.toks(), self.pos()),
    {
        if self.is_at_end() {
            String::new()
        } else {
            self.tokens[self.current].clone()
        }
    }

    /// The token after the one under the cursor, or an empty string.
    pub fn peek_next(&self) -> (t: String)
        ensures
            t@ == spec_peek(self.toks(), self.pos() + 1),
    {
        let n = self.tokens.len();
        proof {
            assert(self.toks().len() == self.tokens@.len());
        }
        if self.current >= n {
            String::new()
        } else if n - self.current < 2 {
            String::new()
        } else {
            self.tokens[self.current + 1].clone()
        }
    }

    /// Reads the token under the cursor and moves the cursor past it.
    pub fn advance(&mut self) -> (t: String)
        requires
            old(self).pos() < old(self).toks().len(),
        ensures
            final(self).tokens == old(self).tokens,
            final(self).current == old(self).current + 1,
            t@ == old(self).toks()[old(self).pos()],
    {
        let n = self.tokens.len();
        proof {
            assert(self.toks().len() == self.tokens@.len());
        }
        let t = self.tokens[self.current].clone();
        self.current = self.current + 1;
        t
    }

    /// Splits the source text on runs of whitespace and resets the cursor.
    /// The new token sequence is a pure function of the text, so tokenizing
    /// is deterministic and repeatable.
    pub fn tokenize(&mut self, input: &str)
        ensures
            final(self).toks() == spec_tokenize(input@),
            final(self).current == 0,
    {
        let n = input.unicode_len();
        let mut toks: Vec<String> = Vec::new();
        let mut i: usize = 0;
        proof {
            assert(toks.deep_view() =~= Seq::<Seq<char>>::empty());
        }
        while i < n
            invariant
                i <= n,
                n == input@.len(),
                toks.deep_view() + spec_tokenize_from(input@, i as int) == spec_tokenize_from(
                    input@,
                    0,
                ),
            decreases n - i,
        {
            let c = input.get_char(i);
            if is_space_char(c) {
                i += 1;
            } else {
                let start = i;
                let mut j = i + 1;
                while j < n && !is_space_char(input.get_char(j))
                    invariant
                        start < j <= n,
                        n == input@.len(),
                        forall|k: int| start <= k < j ==> !is_space(input@[k]),
                    decreases n - j,
                {
                    j += 1;
                }
                proof {
                    lemma_token_end_is(input@, start as int, j as int);
                }
                let piece = input.substring_char(start, j);
                let ghost prev = toks.deep_view();
                let ghost tok = input@.subrange(start as int, j as int);
                toks.push(piece.to_owned());
                proof {
                    assert(toks.deep_view() =~= prev + seq![tok]);
                    assert((prev + seq![tok]) + spec_tokenize_from(input@, j as int) =~= prev + (
                    seq![tok] + spec_tokenize_from(input@, j as int)));
                }
                i = j;
            }
        }
        proof {
            assert(toks.deep_view() + spec_tokenize_from(input@, n as int) =~= toks.deep_view());
        }
        self.tokens = toks;
        self.current = 0;
    }

    /// Tokenizes the text and parses a whole program: the statement list, or
    /// the first parse failure. Every failure is returned as a typed error.
    ///
    /// Floating point stays outside this library, so the caller supplies the
    /// numeric readings: `number_bits[k]` says whether token `k` of
    /// `spec_tokenize(input@)` reads as a 64-bit floating-point literal and,
    /// if so, holds the IEEE-754 bit pattern of its value (entries past the
    /// given table count as not numeric). The result is pinned, for every
    /// reading table, by the specification-level parser `sp_program`.
    pub fn parse(&mut self, input: &str, number_bits: &Vec<Option<u64>>) -> (r: Result<
        AST,
        ParseError,
    >)
        ensures
            final(self).toks() == spec_tokenize(input@),
            (match r {
                Ok(ast) => sp_program(spec_tokenize(input@), number_bits@, 0) == (SpParsed::Parsed {
                    v: stmts_view(ast.statements@),
                    next: spec_tokenize(input@).len() as int,
                }),
                Err(e) => sp_program(spec_tokenize(input@), number_bits@, 0) == (
                SpParsed::Fail::<Seq<SpStmt>> { err: perr_view(e) }),
            }),
    {
        self.tokenize(input);
        let statements = self.parse_program_stmts(number_bits)?;
        Ok(AST { statements })
    }

    /// Parses statements until the end of the token sequence.
    fn parse_program_stmts(&mut self, nums: &Vec<Option<u64>>) -> (r: Result<Vec<Statement>, ParseError>)
        requires
            old(self).wf(),
        ensures
            final(self).tokens == old(self).tokens,
            final(self).wf(),
            (match r {
                Ok(v) => sp_program(old(self).toks(), nums@, old(self).pos()) == (SpParsed::Parsed {
                    v: stmts_view(v@),
                    next: final(self).pos(),
                }) && final(self).pos() == final(self).toks().len(),
                Err(e) => sp_program(old(self).toks(), nums@, old(self).pos()) == (
                SpParsed::Fail::<Seq<SpStmt>> { err: perr_view(e) }),
            }),
        decreases self.tokens@.len() - self.current, 4int,
    {
        if self.is_at_end() {
            let v: Vec<Statement> = Vec::new();
            proof {
                assert(stmts_view(v@) =~= Seq::<SpStmt>::empty());
            }
            return Ok(v);
        }
        let s = self.parse_statement(nums)?;
        let mut rest = self.parse_program_stmts(nums)?;
        let ghost rest_prev = rest@;
        rest.insert(0, s);
        proof {
            assert(rest@.drop_first() =~= rest_prev);
        }
        Ok(rest)
    }

    /// Parses one statement; the head token decides which kind.
    fn parse_statement(&mut self, nums: &Vec<Option<u64>>) -> (r: Result<Statement, ParseError>)
        requires
            old(self).wf(),
        ensures
            final(self).tokens == old(self).tokens,
            final(self).wf(),
            (match r {
                Ok(s) => sp_stmt(old(self).toks(), nums@, old(self).pos()) == (SpParsed::Parsed {
                    v: stmt_view(s),
                    next: final(self).pos(),
                }) && old(self).pos() < final(self).pos(),
                Err(e) => sp_stmt(old(self).toks(), nums@, old(self).pos()) == (SpParsed::Fail::<SpStmt> {
                    err: perr_view(e),
                }),
            }),
        decreases self.tokens@.len() - self.current, 3int,
    {
        if self.is_at_end() {
            return Err(ParseError::UnexpectedEndOfInput);
        }
        let t = self.peek();
        if str_eq(&t, "let") {
            self.parse_let(nums)
        } else if str_eq(&t, "output") {
            self.parse_output(nums)
        } else if str_eq(&t, "fn") {
            self.parse_function(nums)
        } else {
            Err(ParseError::ExpectedToken { expected: String::from_str("statement"), found: t })
        }
    }

    /// Parses `let IDENT = expression`.
    fn parse_let(&mut self, nums: &Vec<Option<u64>>) -> (r: Result<Statement, ParseError>)
        requires
            old(self).wf(),
        ensures
            final(self).tokens == old(self).tokens,
            final(self).wf(),
            (match r {
                Ok(s) => sp_let(old(self).toks(), nums@, old(self).pos()) == (SpParsed::Parsed {
                    v: stmt_view(s),
                    next: final(self).pos(),
                }) && old(self).pos() < final(self).pos(),
                Err(e) => sp_let(old(self).toks(), nums@, old(self).pos()) == (SpParsed::Fail::<SpStmt> {
                    err: perr_view(e),
                }),
            }),
        decreases self.tokens@.len() - self.current, 2int,
    {
        if self.is_at_end() {
            return Err(ParseError::UnexpectedEndOfInput);
        }
        let _ = self.advance();
        if self.is_at_end() {
            return Err(ParseError::UnexpectedEndOfInput);
        }
        let name = self.advance();
        if self.is_at_end() {
            return Err(ParseError::UnexpectedEndOfInput);
        }
        let eq = self.advance();
        if !str_eq(&eq, "=") {
            return Err(ParseError::ExpectedToken { expected: String::from_str("="), found: eq });
        }
        let value = self.parse_expression(nums)?;
        Ok(Statement::Let { name, value })
    }

    /// Parses `output expression`.
    fn parse_output(&mut self, nums: &Vec<Option<u64>>) -> (r: Result<Statement, ParseError>)
        requires
            old(self).wf(),
        ensures
            final(self).tokens == old(self).tokens,
            final(self).wf(),
            (match r {
                Ok(s) => sp_output(old(self).toks(), nums@, old(self).pos()) == (SpParsed::Parsed {
                    v: stmt_view(s),
                    next: final(self).pos(),
                }) && old(self).pos() < final(self).pos(),
                Err(e) => sp_output(old(self).toks(), nums@, old(self).pos()) == (
                SpParsed::Fail::<SpStmt> { err: perr_view(e) }),
            }),
        decreases self.tokens@.len() - self.current, 2int,
    {
        if self.is_at_end() {
            return Err(ParseError::UnexpectedEndOfInput);
        }
        let _ = self.advance();
        let e = self.parse_expression(nums)?;
        Ok(Statement::Output(e))
    }

    /// Parses `fn IDENT ( params ) { body }`.
    fn parse_function(&mut self, nums: &Vec<Option<u64>>) -> (r: Result<Statement, ParseError>)
        requires
            old(self).wf(),
        ensures
            final(self).tokens == old(self).tokens,
            final(self).wf(),
            (match r {
                Ok(s) => sp_function(old(self).toks(), nums@, old(self).pos()) == (SpParsed::Parsed {
                    v: stmt_view(s),
                    next: final(self).pos(),
                }) && old(self).pos() < final(self).pos(),
                Err(e) => sp_function(old(self).toks(), nums@, old(self).pos()) == (
                SpParsed::Fail::<SpStmt> { err: perr_view(e) }),
            }),
        decreases self.tokens@.len() - self.current, 2int,
    {
        if self.is_at_end() {
            return Err(ParseError::UnexpectedEndOfInput);
        }
        let _ = self.advance();
        if self.is_at_end() {
            return Err(ParseError::UnexpectedEndOfInput);
        }
        let name = self.advance();
        if self.is_at_end() {
            return Err(ParseError::UnexpectedEndOfInput);
        }
        let par = self.advance();
        if !str_eq(&par, "(") {
            return Err(ParseError::ExpectedToken { expected: String::from_str("("), found: par });
        }
        let params = self.parse_params(nums)?;
        if self.is_at_end() {
            return Err(ParseError::UnexpectedEndOfInput);
        }
        let br = self.advance();
        if !str_eq(&br, "{") {
            return Err(ParseError::ExpectedToken { expected: String::from_str("{"), found: br });
        }
        let body = self.parse_block(nums)?;
        Ok(Statement::Function { name, params, body })
    }

    /// Parses parameter names up to and including the closing `)`.
    fn parse_params(&mut self, nums: &Vec<Option<u64>>) -> (r: Result<Vec<String>, ParseError>)
        requires
            old(self).wf(),
        ensures
            final(self).tokens == old(self).tokens,
            final(self).wf(),
            (match r {
                Ok(v) => sp_params(old(self).toks(), nums@, old(self).pos()) == (SpParsed::Parsed {
                    v: v.deep_view(),
                    next: final(self).pos(),
                }) && old(self).pos() < final(self).pos(),
                Err(e) => sp_params(old(self).toks(), nums@, old(self).pos()) == (
                SpParsed::Fail::<Seq<Seq<char>>> { err: perr_view(e) }),
            }),
        decreases self.tokens@.len() - self.current, 2int,
    {
        if self.is_at_end() {
            return Err(ParseError::UnexpectedEndOfInput);
        }
        let t = self.peek();
        if str_eq(&t, ")") {
            let _ = self.advance();
            let v: Vec<String> = Vec::new();
            proof {
                assert(v.deep_view() =~= Seq::<Seq<char>>::empty());
            }
            return Ok(v);
        }
        let _ = self.advance();
        if !self.is_at_end() {
            let c = self.peek();
            if str_eq(&c, ",") {
                let _ = self.advance();
            }
        }
        let mut rest = self.parse_params(nums)?;
        let ghost rest_prev = rest.deep_view();
        rest.insert(0, t);
        proof {
            assert(rest.deep_view() =~= seq![old(self).toks()[old(self).pos()]] + rest_prev);
        }
        Ok(rest)
    }

    /// Parses body statements up to and including the closing `}`.
    fn parse_block(&mut self, nums: &Vec<Option<u64>>) -> (r: Result<Vec<Statement>, ParseError>)
        requires
            old(self).wf(),
        ensures
            final(self).tokens == old(self).tokens,
            final(self).wf(),
            (match r {
                Ok(v) => sp_block(old(self).toks(), nums@, old(self).pos()) == (SpParsed::Parsed {
                    v: stmts_view(v@),
                    next: final(self).pos(),
                }) && old(self).pos() < final(self).pos(),
                Err(e) => sp_block(old(self).toks(), nums@, old(self).pos()) == (
                SpParsed::Fail::<Seq<SpStmt>> { err: perr_view(e) }),
            }),
        decreases self.tokens@.len() - self.current, 4int,
    {
        if self.is_at_end() {
            return Err(ParseError::UnexpectedEndOfInput);
        }
        let t = self.peek();
        if str_eq(&t, "}") {
            let _ = self.advance();
            let v: Vec<Statement> = Vec::new();
            proof {
                assert(stmts_view(v@) =~= Seq::<SpStmt>::empty());
            }
            return Ok(v);
        }
        let s = self.parse_statement(nums)?;
        let mut rest = self.parse_block(nums)?;
        let ghost rest_prev = rest@;
        rest.insert(0, s);
        proof {
            assert(rest@.drop_first() =~= rest_prev);
        }
        Ok(rest)
    }

    /// Parses one expression.
    fn parse_expression(&mut self, nums: &Vec<Option<u64>>) -> (r: Result<Expression, ParseError>)
        requires
            old(self).wf(),
        ensures
            final(self).tokens == old(self).tokens,
            final(self).wf(),
            (match r {
                Ok(e) => sp_expr(old(self).toks(), nums@, old(self).pos()) == (SpParsed::Parsed {
                    v: expr_view(e),
                    next: final(self).pos(),
                }) && old(self).pos() < final(self).pos(),
                Err(pe) => sp_expr(old(self).toks(), nums@, old(self).pos()) == (SpParsed::Fail::<SpExpr> {
                    err: perr_view(pe),
                }),
            }),
        decreases self.tokens@.len() - self.current, 1int,
    {
        if self.is_at_end() {
            return Err(ParseError::UnexpectedEndOfInput);
        }
        let token = self.peek();
        let reading: Option<u64> = if self.current < nums.len() {
            nums[self.current]
        } else {
            None
        };
        match reading {
            Some(bits) => {
                let _ = self.advance();
                Ok(Expression::Number(bits))
            },
            None => {
                if starts_with_quote(&token) {
                    let _ = self.advance();
                    let text = trim_quote_chars(&token);
                    Ok(Expression::String(text))
                } else {
                    let nxt = self.peek_next();
                    if str_eq(&nxt, "(") {
                        self.parse_call(nums)
                    } else if str_eq(&token, "[") {
                        self.parse_array(nums)
                    } else {
                        let _ = self.advance();
                        Ok(Expression::Identifier(token))
                    }
                }
            },
        }
    }

    /// Parses `IDENT ( arguments )`, the cursor standing on the callee name.
    fn parse_call(&mut self, nums: &Vec<Option<u64>>) -> (r: Result<Expression, ParseError>)
        requires
            old(self).wf(),
        ensures
            final(self).tokens == old(self).tokens,
            final(self).wf(),
            (match r {
                Ok(e) => sp_call(old(self).toks(), nums@, old(self).pos()) == (SpParsed::Parsed {
                    v: expr_view(e),
                    next: final(self).pos(),
                }) && old(self).pos() < final(self).pos(),
                Err(pe) => sp_call(old(self).toks(), nums@, old(self).pos()) == (SpParsed::Fail::<SpExpr> {
                    err: perr_view(pe),
                }),
            }),
        decreases self.tokens@.len() - self.current, 0int,
    {
        if self.is_at_end() {
            return Err(ParseError::UnexpectedEndOfInput);
        }
        if self.tokens.len() - self.current < 2 {
            return Err(ParseError::UnexpectedEndOfInput);
        }
        let function = self.advance();
        let _ = self.advance();
        let arguments = self.parse_call_args(nums)?;
        Ok(Expression::Call { function, arguments })
    }

    /// Parses call arguments up to and including the closing `)`.
    fn parse_call_args(&mut self, nums: &Vec<Option<u64>>) -> (r: Result<Vec<Expression>, ParseError>)
        requires
            old(self).wf(),
        ensures
            final(self).tokens == old(self).tokens,
            final(self).wf(),
            (match r {
                Ok(v) => sp_call_args(old(self).toks(), nums@, old(self).pos()) == (SpParsed::Parsed {
                    v: exprs_view(v@),
                    next: final(self).pos(),
                }) && old(self).pos() < final(self).pos(),
                Err(e) => sp_call_args(old(self).toks(), nums@, old(self).pos()) == (
                SpParsed::Fail::<Seq<SpExpr>> { err: perr_view(e) }),
            }),
        decreases self.tokens@.len() - self.current, 2int,
    {
        if self.is_at_end() {
            return Err(ParseError::UnexpectedEndOfInput);
        }
        let t = self.peek();
        if str_eq(&t, ")") {
            let _ = self.advance();
            let v: Vec<Expression> = Vec::new();
            proof {
                assert(exprs_view(v@) =~= Seq::<SpExpr>::empty());
            }
            return Ok(v);
        }
        let e = self.parse_expression(nums)?;
        if !self.is_at_end() {
            let c = self.peek();
            if str_eq(&c, ",") {
                let _ = self.advance();
            }
        }
        let mut rest = self.parse_call_args(nums)?;
        let ghost rest_prev = rest@;
        rest.insert(0, e);
        proof {
            assert(rest@.drop_first() =~= rest_prev);
        }
        Ok(rest)
    }

    /// Parses `[ elements ]`, the cursor standing on the opening bracket.
    fn parse_array(&mut self, nums: &Vec<Option<u64>>) -> (r: Result<Expression, ParseError>)
        requires
            old(self).wf(),
        ensures
            final(self).tokens == old(self).tokens,
            final(self).wf(),
            (match r {
                Ok(e) => sp_array(old(self).toks(), nums@, old(self).pos()) == (SpParsed::Parsed {
                    v: expr_view(e),
                    next: final(self).pos(),
                }) && old(self).pos() < final(self).pos(),
                Err(pe) => sp_array(old(self).toks(), nums@, old(self).pos()) == (
                SpParsed::Fail::<SpExpr> { err: perr_view(pe) }),
            }),
        decreases self.tokens@.len() - self.current, 0int,
    {
        if self.is_at_end() {
            return Err(ParseError::UnexpectedEndOfInput);
        }
        let _ = self.advance();
        let elements = self.parse_array_elems(nums)?;
        Ok(Expression::Array { elements })
    }

    /// Parses array elements up to and including the closing `]`.
    fn parse_array_elems(&mut self, nums: &Vec<Option<u64>>) -> (r: Result<Vec<Expression>, ParseError>)
        requires
            old(self).wf(),
        ensures
            final(self).tokens == old(self).tokens,
            final(self).wf(),
            (match r {
                Ok(v) => sp_array_elems(old(self).toks(), nums@, old(self).pos()) == (SpParsed::Parsed {
                    v: exprs_view(v@),
                    next: final(self).pos(),
                }) && old(self).pos() < final(self).pos(),
                Err(e) => sp_array_elems(old(self).toks(), nums@, old(self).pos()) == (
                SpParsed::Fail::<Seq<SpExpr>> { err: perr_view(e) }),
            }),
        decreases self.tokens@.len() - self.current, 2int,
    {
        if self.is_at_end() {
            return Err(ParseError::UnexpectedEndOfInput);
        }
        let t = self.peek();
        if str_eq(&t, "]") {
            let _ = self.advance();
            let v: Vec<Expression> = Vec::new();
            proof {
                assert(exprs_view(v@) =~= Seq::<SpExpr>::empty());
            }
            return Ok(v);
        }
        let e = self.parse_expression(nums)?;
        if !self.is_at_end() {
            let c = self.peek();
            if str_eq(&c, ",") {
                let _ = self.advance();
            }
        }
        let mut rest = self.parse_array_elems(nums)?;
        let ghost rest_prev = rest@;
        rest.insert(0, e);
        proof {
            assert(rest@.drop_first() =~= rest_prev);
        }
        Ok(rest)
    }
}

} // verus!
