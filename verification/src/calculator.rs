//! Arithmetic expression evaluator behind the calculator view.
//!
//! The pipeline has four stages: tokenizing the raw text, reclassifying
//! unary minus, resolving parentheses into nested bracket groups, and
//! reducing the structure to a single value by operator precedence,
//! left to right within one precedence level.
//!
//! The evaluator is generic over its arithmetic domain: a [`CalcValue`]
//! supplies literal parsing, the binary operators, negation and rendering.
//! The intended domain is IEEE-754 double precision, which the host
//! supplies from outside the verified core; every structural decision of
//! the pipeline is verified here for any domain.

use vstd::prelude::*;

use crate::text::push_char;

verus! {

/// A binary arithmetic operator.
#[derive(Clone, Copy, PartialEq, Eq, Structural, Debug)]
pub enum BinaryOp {
    Plus,
    Minus,
    Multiply,
    Divide,
    Power,
    Modulo,
}

/// The arithmetic domain of the evaluator.
///
/// The evaluator never inspects a number: it only parses literals, applies
/// operators, negates, and renders. Each executable method is pinned to a
/// spec-level counterpart so that the whole pipeline has an exact
/// functional contract for every domain.
pub trait CalcValue: Sized + Copy {
    /// The value a numeric literal denotes, if it parses. The neutral
    /// default stands for a domain about which nothing is stated; a
    /// domain that wants the pipeline's contracts to bite overrides it.
    open spec fn spec_parse(s: Seq<char>) -> Option<Self> {
        None
    }

    /// The result of a binary operator.
    open spec fn spec_apply(op: BinaryOp, lhs: Self, rhs: Self) -> Self {
        lhs
    }

    /// The result of negation.
    open spec fn spec_negate(v: Self) -> Self {
        v
    }

    /// The textual rendering of a value.
    open spec fn spec_render(v: Self) -> Seq<char> {
        Seq::empty()
    }

    /// The zero of the domain.
    open spec fn spec_zero() -> Self {
        arbitrary()
    }

    fn parse_literal(s: &str) -> (r: Option<Self>)
        ensures
            r == Self::spec_parse(s@),
    ;

    fn apply_binary(op: BinaryOp, lhs: &Self, rhs: &Self) -> (r: Self)
        ensures
            r == Self::spec_apply(op, *lhs, *rhs),
    ;

    fn negate(v: &Self) -> (r: Self)
        ensures
            r == Self::spec_negate(*v),
    ;

    fn render(v: &Self) -> (r: String)
        ensures
            r@ == Self::spec_render(*v),
    ;

    fn zero() -> (r: Self)
        ensures
            r == Self::spec_zero(),
    ;
}

/// One token of an expression: a number, an operator, a parenthesis
/// marker, or (after bracket resolution) a nested group.
#[derive(Debug, PartialEq)]
pub enum Expr<N> {
    Number(N),
    Plus,
    Minus,
    UnaryMinus,
    Multiply,
    Divide,
    Power,
    Modulo,
    Bracket(Vec<Expr<N>>),
    OpenParen,
    CloseParen,
}

/// The mathematical shape of a token, with bracket groups as sequences.
pub enum ExprModel<N> {
    Number(N),
    Plus,
    Minus,
    UnaryMinus,
    Multiply,
    Divide,
    Power,
    Modulo,
    Bracket(Seq<ExprModel<N>>),
    OpenParen,
    CloseParen,
}

/// The model of one token.
pub open spec fn view_expr<N>(e: Expr<N>) -> ExprModel<N>
    decreases e,
{
    match e {
        Expr::Number(n) => ExprModel::Number(n),
        Expr::Plus => ExprModel::Plus,
        Expr::Minus => ExprModel::Minus,
        Expr::UnaryMinus => ExprModel::UnaryMinus,
        Expr::Multiply => ExprModel::Multiply,
        Expr::Divide => ExprModel::Divide,
        Expr::Power => ExprModel::Power,
        Expr::Modulo => ExprModel::Modulo,
        Expr::Bracket(v) => ExprModel::Bracket(view_exprs(v@)),
        Expr::OpenParen => ExprModel::OpenParen,
        Expr::CloseParen => ExprModel::CloseParen,
    }
}

/// The model of a token sequence.
pub open spec fn view_exprs<N>(s: Seq<Expr<N>>) -> Seq<ExprModel<N>>
    decreases s,
{
    if s.len() == 0 {
        Seq::empty()
    } else {
        seq![view_expr(s[0])] + view_exprs(s.drop_first())
    }
}

pub broadcast proof fn lemma_view_exprs<N>(s: Seq<Expr<N>>)
    ensures
        (#[trigger] view_exprs(s)).len() == s.len(),
        forall|t: int| 0 <= t < s.len() ==> view_exprs(s)[t] == view_expr(s[t]),
    decreases s.len(),
{
    if s.len() > 0 {
        lemma_view_exprs(s.drop_first());
    }
}

/// The data carried by an evaluation error: a message, a rendering of the
/// expression at the point of failure, and a caret offset.
pub struct ErrInfo {
    pub message: Seq<char>,
    pub equation: Seq<char>,
    pub error_idx: nat,
}

/// A structured, user-facing evaluation error.
#[derive(Debug)]
pub struct CalcError {
    pub message: String,
    pub equation: String,
    pub error_idx: usize,
}

impl View for CalcError {
    type V = ErrInfo;

    open spec fn view(&self) -> ErrInfo {
        ErrInfo { message: self.message@, equation: self.equation@, error_idx: self.error_idx as nat }
    }
}

/// The caret column for a caret under token `idx` of a space-separated
/// rendering: an approximation, clamped at the machine limit.
pub open spec fn spec_caret(idx: int) -> nat {
    if idx <= 0 {
        0
    } else if 2 * idx + 1 <= usize::MAX {
        (2 * idx + 1) as nat
    } else {
        usize::MAX as nat
    }
}

/// The rendering of one token: numbers by the domain, operators by their
/// printable symbol, bracket groups by their spaced contents.
pub open spec fn spec_render_model<N: CalcValue>(m: ExprModel<N>) -> Seq<char>
    decreases m,
{
    match m {
        ExprModel::Number(n) => N::spec_render(n),
        ExprModel::Plus => "+"@,
        ExprModel::Minus => "-"@,
        ExprModel::UnaryMinus => "--"@,
        ExprModel::Multiply => "*"@,
        ExprModel::Divide => "\u{f7}"@,
        ExprModel::Power => "^"@,
        ExprModel::Modulo => "%"@,
        ExprModel::Bracket(v) => spec_render_models(v),
        ExprModel::OpenParen => "("@,
        ExprModel::CloseParen => ")"@,
    }
}

/// Each token rendered and followed by one space.
pub open spec fn spec_render_models<N: CalcValue>(s: Seq<ExprModel<N>>) -> Seq<char>
    decreases s,
{
    if s.len() == 0 {
        Seq::empty()
    } else {
        spec_render_model(s[0]) + " "@ + spec_render_models(s.drop_first())
    }
}

/// The error built from a token list: message, spaced rendering, and the
/// caret transform of the token index.
pub open spec fn spec_err_at<N: CalcValue>(
    msg: Seq<char>,
    toks: Seq<ExprModel<N>>,
    idx: int,
) -> ErrInfo {
    ErrInfo { message: msg, equation: spec_render_models(toks), error_idx: spec_caret(idx) }
}

fn render_expr<N: CalcValue>(e: &Expr<N>) -> (r: String)
    ensures
        r@ == spec_render_model(view_expr(*e)),
    decreases *e,
{
    match e {
        Expr::Number(n) => N::render(n),
        Expr::Plus => String::from_str("+"),
        Expr::Minus => String::from_str("-"),
        Expr::UnaryMinus => String::from_str("--"),
        Expr::Multiply => String::from_str("*"),
        Expr::Divide => String::from_str("\u{f7}"),
        Expr::Power => String::from_str("^"),
        Expr::Modulo => String::from_str("%"),
        Expr::Bracket(v) => render_exprs(v),
        Expr::OpenParen => String::from_str("("),
        Expr::CloseParen => String::from_str(")"),
    }
}

fn render_exprs<N: CalcValue>(v: &Vec<Expr<N>>) -> (r: String)
    ensures
        r@ == spec_render_models(view_exprs(v@)),
    decreases *v,
{
    let ghost ms = view_exprs(v@);
    proof {
        lemma_view_exprs(v@);
    }
    let mut out = String::new();
    proof {
        assert(ms.skip(0) =~= ms);
        assert(out@ + spec_render_models(ms) =~= spec_render_models(ms));
    }
    let n = v.len();
    let mut i: usize = 0;
    while i < n
        invariant
            i <= n,
            n == v@.len(),
            ms == view_exprs(v@),
            ms.len() == n,
            forall|t: int| 0 <= t < n ==> ms[t] == view_expr(v@[t]),
            spec_render_models(ms) == out@ + spec_render_models(ms.skip(i as int)),
        decreases n - i,
    {
        let piece = render_expr(&v[i]);
        out.append(piece.as_str());
        out.append(" ");
        proof {
            assert(ms.skip(i as int).drop_first() =~= ms.skip(i + 1 as int));
            assert(ms.skip(i as int)[0] == ms[i as int]);
        }
        i += 1;
    }
    proof {
        assert(ms.skip(n as int) =~= Seq::<ExprModel<N>>::empty());
    }
    out
}

impl CalcError {
    /// A raw error from a message, the offending text, and a character
    /// offset used verbatim.
    pub fn new(message: String, equation: String, error_idx: usize) -> (r: CalcError)
        ensures
            r@ == (ErrInfo { message: message@, equation: equation@, error_idx: error_idx as nat }),
    {
        CalcError { message, equation, error_idx }
    }

    /// An error that points at token `error_idx` of a token list: the list
    /// is rendered space-separated and the caret lands under the token.
    pub fn from_expr_list<N: CalcValue>(
        message: String,
        equation: &Vec<Expr<N>>,
        error_idx: usize,
    ) -> (r: CalcError)
        ensures
            r@ == spec_err_at::<N>(message@, view_exprs(equation@), error_idx as int),
    {
        let rendered = render_exprs(equation);
        let idx: usize = if error_idx != 0 {
            match error_idx.checked_mul(2) {
                Some(d) => match d.checked_add(1) {
                    Some(x) => x,
                    None => usize::MAX,
                },
                None => usize::MAX,
            }
        } else {
            0
        };
        CalcError { message, equation: rendered, error_idx: idx }
    }

    /// Spaces used to place the caret line.
    pub open spec fn spec_spaces(n: nat) -> Seq<char>
        decreases n,
    {
        if n == 0 {
            Seq::empty()
        } else {
            Self::spec_spaces((n - 1) as nat).push(' ')
        }
    }

    /// The three-line rendering a host shows the user: the message line,
    /// the expression echo, and a caret line.
    pub open spec fn spec_display(e: ErrInfo) -> Seq<char> {
        "Calc Error! \nMessage: "@ + e.message + "\n"@ + e.equation + "\n"@ + Self::spec_spaces(
            e.error_idx,
        ) + "^"@
    }

    /// Renders the error for display.
    pub fn display_string(&self) -> (r: String)
        ensures
            r@ == Self::spec_display(self@),
    {
        let mut out = String::from_str("Calc Error! \nMessage: ");
        out.append(self.message.as_str());
        out.append("\n");
        out.append(self.equation.as_str());
        out.append("\n");
        let mut i: usize = 0;
        while i < self.error_idx
            invariant
                i <= self.error_idx,
                out@ == "Calc Error! \nMessage: "@ + self.message@ + "\n"@ + self.equation@ + "\n"@
                    + Self::spec_spaces(i as nat),
            decreases self.error_idx - i,
        {
            push_char(&mut out, ' ');
            i += 1;
        }
        out.append("^");
        out
    }
}

proof fn lemma_view_push<N>(s: Seq<Expr<N>>, e: Expr<N>)
    ensures
        view_exprs(s.push(e)) == view_exprs(s).push(view_expr(e)),
{
    lemma_view_exprs(s.push(e));
    lemma_view_exprs(s);
    assert(view_exprs(s.push(e)) =~= view_exprs(s).push(view_expr(e)));
}

/// A decimal digit.
pub open spec fn spec_is_digit(c: char) -> bool {
    48 <= c as u32 <= 57
}

/// A character that may continue a numeric literal.
pub open spec fn spec_is_digit_or_dot(c: char) -> bool {
    spec_is_digit(c) || c == '.'
}

/// The token a single operator character denotes, if any.
pub open spec fn spec_op_of<N>(c: char) -> Option<ExprModel<N>> {
    if c == '+' {
        Some(ExprModel::Plus)
    } else if c == '-' {
        Some(ExprModel::Minus)
    } else if c == '*' || c == 'x' {
        Some(ExprModel::Multiply)
    } else if c == '/' || c == '\u{f7}' {
        Some(ExprModel::Divide)
    } else if c == '^' {
        Some(ExprModel::Power)
    } else if c == '%' {
        Some(ExprModel::Modulo)
    } else if c == '(' {
        Some(ExprModel::OpenParen)
    } else if c == ')' {
        Some(ExprModel::CloseParen)
    } else {
        None
    }
}

pub open spec fn msg_num_parse() -> Seq<char> {
    "Tokeniser could not parse to number"@
}

pub open spec fn msg_unknown(c: char) -> Seq<char> {
    "Unknown token "@.push(c)
}

/// The tokenizer, one character at a time: digits and dots accumulate in
/// `buf` and are flushed as one numeric literal at the end of the run; a
/// space is skipped; an operator character becomes its token; anything
/// else is an unknown-token error. A trailing buffer is flushed at the
/// end of input.
pub open spec fn spec_tokenize_from<N: CalcValue>(
    s: Seq<char>,
    i: int,
    buf: Seq<char>,
    out: Seq<ExprModel<N>>,
) -> Result<Seq<ExprModel<N>>, ErrInfo>
    decreases s.len() - i,
{
    if i < 0 || i >= s.len() {
        if buf.len() == 0 {
            Ok(out)
        } else {
            match N::spec_parse(buf) {
                Some(n) => Ok(out.push(ExprModel::Number(n))),
                None => Err(ErrInfo { message: msg_num_parse(), equation: buf, error_idx: 0 }),
            }
        }
    } else {
        let c = s[i];
        if spec_is_digit_or_dot(c) {
            let buf2 = buf.push(c);
            if i + 1 < s.len() && spec_is_digit_or_dot(s[i + 1]) {
                spec_tokenize_from(s, i + 1, buf2, out)
            } else {
                match N::spec_parse(buf2) {
                    Some(n) => spec_tokenize_from(
                        s,
                        i + 1,
                        Seq::empty(),
                        out.push(ExprModel::Number(n)),
                    ),
                    None => Err(spec_err_at(msg_num_parse(), out, i)),
                }
            }
        } else if c == ' ' {
            spec_tokenize_from(s, i + 1, buf, out)
        } else {
            match spec_op_of::<N>(c) {
                Some(t) => spec_tokenize_from(s, i + 1, buf, out.push(t)),
                None => Err(ErrInfo { message: msg_unknown(c), equation: s, error_idx: i as nat }),
            }
        }
    }
}

/// What tokenizing a whole source string yields.
pub open spec fn spec_tokenize<N: CalcValue>(s: Seq<char>) -> Result<Seq<ExprModel<N>>, ErrInfo> {
    spec_tokenize_from(s, 0, Seq::empty(), Seq::empty())
}

proof fn lemma_view_sub<N>(s: Seq<Expr<N>>, a: int, b: int)
    requires
        0 <= a <= b <= s.len(),
    ensures
        view_exprs(s.subrange(a, b)) == view_exprs(s).subrange(a, b),
{
    lemma_view_exprs(s);
    lemma_view_exprs(s.subrange(a, b));
    assert(view_exprs(s.subrange(a, b)) =~= view_exprs(s).subrange(a, b));
}

proof fn lemma_view_concat<N>(s1: Seq<Expr<N>>, s2: Seq<Expr<N>>)
    ensures
        view_exprs(s1 + s2) == view_exprs(s1) + view_exprs(s2),
{
    lemma_view_exprs(s1);
    lemma_view_exprs(s2);
    lemma_view_exprs(s1 + s2);
    assert(view_exprs(s1 + s2) =~= view_exprs(s1) + view_exprs(s2));
}

/// A token that leaves the following minus with no left operand: an
/// operator or an open parenthesis, as the stream shows them after the
/// reclassifications already made to its left.
pub open spec fn spec_is_op_or_open<N>(m: ExprModel<N>) -> bool {
    ||| m is Minus
    ||| m is Multiply
    ||| m is Plus
    ||| m is Power
    ||| m is Modulo
    ||| m is Divide
    ||| m is OpenParen
}

/// The unary-minus pass: a minus becomes a unary minus exactly when it is
/// the first token or the token just produced is an operator or an open
/// parenthesis. A minus already reclassified does not count as an
/// operator for the next decision.
pub open spec fn spec_unary_pass<N>(s: Seq<ExprModel<N>>) -> Seq<ExprModel<N>>
    decreases s.len(),
{
    if s.len() == 0 {
        Seq::empty()
    } else {
        let prev = spec_unary_pass(s.drop_last());
        let lwo = prev.len() == 0 || spec_is_op_or_open(prev.last());
        prev.push(
            if s.last() is Minus && lwo {
                ExprModel::UnaryMinus
            } else {
                s.last()
            },
        )
    }
}

/// Index of the parenthesis that closes the group, scanning from `i` at
/// nesting level `depth`; the length when the group never closes.
pub open spec fn spec_close_idx<N>(s: Seq<ExprModel<N>>, i: int, depth: int) -> int
    decreases s.len() - i,
{
    if i < 0 || i >= s.len() {
        s.len() as int
    } else if s[i] is OpenParen {
        spec_close_idx(s, i + 1, depth + 1)
    } else if s[i] is CloseParen {
        if depth <= 1 {
            i
        } else {
            spec_close_idx(s, i + 1, depth - 1)
        }
    } else {
        spec_close_idx(s, i + 1, depth)
    }
}

pub open spec fn msg_unbalanced() -> Seq<char> {
    "Unbalanced parentheses"@
}

/// Bracket resolution: each top-level parenthesized span becomes one
/// bracket-group token holding its recursively resolved interior; a
/// parenthesis that never matches is an unbalanced-parentheses error.
pub open spec fn spec_brackets<N: CalcValue>(s: Seq<ExprModel<N>>) -> Result<
    Seq<ExprModel<N>>,
    ErrInfo,
>
    decreases s.len(),
{
    if s.len() == 0 {
        Ok(Seq::empty())
    } else if s[0] is CloseParen {
        Err(spec_err_at(msg_unbalanced(), s, 0))
    } else if s[0] is OpenParen {
        let c = spec_close_idx(s, 1, 1);
        if 1 <= c < s.len() {
            let inner = s.subrange(1, c);
            let rest = s.subrange(c + 1, s.len() as int);
            match spec_brackets(inner) {
                Err(e) => Err(e),
                Ok(bi) => match spec_brackets(rest) {
                    Err(e) => Err(e),
                    Ok(br) => Ok(seq![ExprModel::Bracket(bi)] + br),
                },
            }
        } else {
            Err(spec_err_at(msg_unbalanced(), s, 0))
        }
    } else {
        match spec_brackets(s.drop_first()) {
            Err(e) => Err(e),
            Ok(br) => Ok(seq![s[0]] + br),
        }
    }
}

/// Operator precedence: unary minus binds tightest, then power, then the
/// multiplicative operators, then the additive ones. Zero for a token
/// that is no operator.
pub open spec fn spec_precedence<N>(m: ExprModel<N>) -> int {
    match m {
        ExprModel::UnaryMinus => 4,
        ExprModel::Power => 3,
        ExprModel::Divide => 2,
        ExprModel::Multiply => 2,
        ExprModel::Modulo => 2,
        ExprModel::Plus => 1,
        ExprModel::Minus => 1,
        _ => 0,
    }
}

/// The operator a binary-operator token denotes.
pub open spec fn spec_binop_of<N>(m: ExprModel<N>) -> BinaryOp {
    match m {
        ExprModel::Minus => BinaryOp::Minus,
        ExprModel::Multiply => BinaryOp::Multiply,
        ExprModel::Divide => BinaryOp::Divide,
        ExprModel::Power => BinaryOp::Power,
        ExprModel::Modulo => BinaryOp::Modulo,
        _ => BinaryOp::Plus,
    }
}

pub open spec fn msg_rhs_unary() -> Seq<char> {
    "RHS of UnaryMinus not found"@
}

pub open spec fn msg_rhs_unary_num() -> Seq<char> {
    "Could not turn RHS of UnaryMinus into number"@
}

pub open spec fn msg_op_first() -> Seq<char> {
    "Operator as first arg isnt allowed"@
}

pub open spec fn msg_lhs_num() -> Seq<char> {
    "LHS Expression could not be turned into number. This is a strange state. Pls notify developer"@
}

pub open spec fn msg_rhs_missing() -> Seq<char> {
    "RHS of operator not found"@
}

pub open spec fn msg_rhs_num() -> Seq<char> {
    "RHS Expression could not be turned into number"@
}

pub open spec fn msg_invalid() -> Seq<char> {
    "Invalid expression"@
}

pub open spec fn msg_not_number() -> Seq<char> {
    "Expression was not number! this is strange. Notify the developer with your input message pls"@
}

/// One operator application at `idx`: unary minus consumes its right
/// neighbour; a binary operator consumes both neighbours. Every missing
/// or non-numeric operand is a reported error.
pub open spec fn spec_apply_at<N: CalcValue>(s: Seq<ExprModel<N>>, idx: int) -> Result<
    Seq<ExprModel<N>>,
    ErrInfo,
> {
    if s[idx] is UnaryMinus {
        if idx + 1 >= s.len() {
            Err(spec_err_at(msg_rhs_unary(), s, idx + 1))
        } else {
            match s[idx + 1] {
                ExprModel::Number(n) => Ok(
                    s.take(idx) + seq![ExprModel::Number(N::spec_negate(n))] + s.skip(idx + 2),
                ),
                _ => Err(spec_err_at(msg_rhs_unary_num(), s, idx + 1)),
            }
        }
    } else if idx == 0 {
        Err(spec_err_at(msg_op_first(), s, 0))
    } else {
        match s[idx - 1] {
            ExprModel::Number(a) => {
                if idx + 1 >= s.len() {
                    Err(spec_err_at(msg_rhs_missing(), s, idx + 1))
                } else {
                    match s[idx + 1] {
                        ExprModel::Number(b) => Ok(
                            s.take(idx - 1) + seq![
                                ExprModel::Number(N::spec_apply(spec_binop_of(s[idx]), a, b)),
                            ] + s.skip(idx + 2),
                        ),
                        _ => Err(spec_err_at(msg_rhs_num(), s, idx + 1)),
                    }
                }
            },
            _ => Err(spec_err_at(msg_lhs_num(), s, idx - 1)),
        }
    }
}

/// Leftmost token of the given precedence at or after `i`, or the length.
pub open spec fn spec_first_op<N>(s: Seq<ExprModel<N>>, prec: int, i: int) -> int
    decreases s.len() - i,
{
    if i < 0 || i >= s.len() {
        s.len() as int
    } else if spec_precedence(s[i]) == prec {
        i
    } else {
        spec_first_op(s, prec, i + 1)
    }
}

proof fn lemma_first_op<N>(s: Seq<ExprModel<N>>, prec: int, i: int)
    requires
        0 <= i <= s.len(),
    ensures
        i <= spec_first_op(s, prec, i) <= s.len(),
        spec_first_op(s, prec, i) < s.len() ==> spec_precedence(
            s[spec_first_op(s, prec, i)],
        ) == prec,
        forall|t: int|
            i <= t < spec_first_op(s, prec, i) ==> spec_precedence(#[trigger] s[t]) != prec,
    decreases s.len() - i,
{
    if i < s.len() && spec_precedence(s[i]) != prec {
        lemma_first_op(s, prec, i + 1);
    }
}

proof fn lemma_first_op_is<N>(s: Seq<ExprModel<N>>, prec: int, i: int)
    requires
        0 <= i < s.len(),
        spec_precedence(s[i]) == prec,
        forall|t: int| 0 <= t < i ==> spec_precedence(#[trigger] s[t]) != prec,
    ensures
        spec_first_op(s, prec, 0) == i,
{
    lemma_first_op(s, prec, 0);
    let f = spec_first_op(s, prec, 0);
    if f < i {
        assert(spec_precedence(s[f]) != prec);
    }
    if i < f {
        assert(spec_precedence(s[i]) != prec);
    }
}

/// One precedence level, run to exhaustion: repeatedly apply the leftmost
/// operator of that precedence. (The length guard only discharges
/// termination; an application always shortens the list.)
pub open spec fn spec_run_level<N: CalcValue>(s: Seq<ExprModel<N>>, prec: int) -> Result<
    Seq<ExprModel<N>>,
    ErrInfo,
>
    decreases s.len(),
{
    let idx = spec_first_op(s, prec, 0);
    if idx >= s.len() {
        Ok(s)
    } else {
        match spec_apply_at(s, idx) {
            Err(e) => Err(e),
            Ok(s2) => if s2.len() < s.len() {
                spec_run_level(s2, prec)
            } else {
                Ok(s2)
            },
        }
    }
}

/// The precedence levels from `prec` down to one, in order.
pub open spec fn spec_run_from<N: CalcValue>(s: Seq<ExprModel<N>>, prec: int) -> Result<
    Seq<ExprModel<N>>,
    ErrInfo,
>
    decreases prec,
{
    if prec < 1 {
        Ok(s)
    } else {
        match spec_run_level(s, prec) {
            Err(e) => Err(e),
            Ok(t) => spec_run_from(t, prec - 1),
        }
    }
}

/// After all operators are exhausted, exactly one numeric token must
/// remain; its value is the answer.
pub open spec fn spec_finish<N: CalcValue>(s: Seq<ExprModel<N>>) -> Result<N, ErrInfo> {
    if s.len() != 1 {
        Err(spec_err_at(msg_invalid(), s, 0))
    } else {
        match s[0] {
            ExprModel::Number(n) => Ok(n),
            _ => Err(ErrInfo { message: msg_not_number(), equation: Seq::empty(), error_idx: 0 }),
        }
    }
}

/// Reduction of a bracket-resolved token list: the bracket pass replaces
/// every group by its recursively evaluated value, inserting an implicit
/// multiplication after a preceding number; then the precedence levels
/// run highest first, left to right within a level.
pub open spec fn spec_eval<N: CalcValue>(s: Seq<ExprModel<N>>) -> Result<N, ErrInfo>
    decreases s, 1int,
{
    match spec_pass1(s, false) {
        Err(e) => Err(e),
        Ok(t) => match spec_run_from(t, 4) {
            Err(e) => Err(e),
            Ok(u) => spec_finish(u),
        },
    }
}

/// The bracket/implicit-multiplication pass. `prev_num` says whether the
/// token just produced was a number.
pub open spec fn spec_pass1<N: CalcValue>(s: Seq<ExprModel<N>>, prev_num: bool) -> Result<
    Seq<ExprModel<N>>,
    ErrInfo,
>
    decreases s, 0int,
{
    if s.len() == 0 {
        Ok(Seq::empty())
    } else {
        match s[0] {
            ExprModel::Bracket(inner) => match spec_eval(inner) {
                Err(e) => Err(e),
                Ok(n) => match spec_pass1(s.drop_first(), true) {
                    Err(e) => Err(e),
                    Ok(rest) => Ok(
                        (if prev_num {
                            seq![ExprModel::Multiply, ExprModel::Number(n)]
                        } else {
                            seq![ExprModel::Number(n)]
                        }) + rest,
                    ),
                },
            },
            m => match spec_pass1(s.drop_first(), m is Number) {
                Err(e) => Err(e),
                Ok(rest) => Ok(seq![m] + rest),
            },
        }
    }
}

/// What evaluating a whole source string yields.
pub open spec fn spec_calculate<N: CalcValue>(input: Seq<char>) -> Result<N, ErrInfo> {
    match spec_tokenize::<N>(input) {
        Err(e) => Err(e),
        Ok(toks) => match spec_brackets(spec_unary_pass(toks)) {
            Err(e) => Err(e),
            Ok(b) => spec_eval(b),
        },
    }
}

fn binop_of_exec<N>(e: &Expr<N>) -> (r: BinaryOp)
    ensures
        r == spec_binop_of(view_expr(*e)),
{
    match e {
        Expr::Minus => BinaryOp::Minus,
        Expr::Multiply => BinaryOp::Multiply,
        Expr::Divide => BinaryOp::Divide,
        Expr::Power => BinaryOp::Power,
        Expr::Modulo => BinaryOp::Modulo,
        _ => BinaryOp::Plus,
    }
}

impl<N> Expr<N> {
    /// The precedence of an operator token; `None` for other tokens.
    pub fn precedence(&self) -> (r: Option<u8>)
        ensures
            match r {
                Some(p) => spec_precedence(view_expr(*self)) == p as int && 1 <= p <= 4,
                None => spec_precedence(view_expr(*self)) == 0,
            },
    {
        match self {
            Expr::UnaryMinus => Some(4),
            Expr::Power => Some(3),
            Expr::Divide => Some(2),
            Expr::Multiply => Some(2),
            Expr::Modulo => Some(2),
            Expr::Plus => Some(1),
            Expr::Minus => Some(1),
            _ => None,
        }
    }
}

impl<N: CalcValue> Expr<N> {
    /// The numeric value of a number token; any other token reports the
    /// internal-invariant error.
    pub fn get_number(&self) -> (r: Result<N, CalcError>)
        ensures
            match r {
                Ok(n) => view_expr(*self) matches ExprModel::Number(k) && k == n,
                Err(e) => !(view_expr(*self) is Number) && e@ == (ErrInfo {
                    message: msg_not_number(),
                    equation: Seq::<char>::empty(),
                    error_idx: 0,
                }),
            },
    {
        match self {
            Expr::Number(n) => Ok(*n),
            _ => {
                let m = String::from_str(
                    "Expression was not number! this is strange. Notify the developer with your input message pls",
                );
                Err(CalcError::new(m, String::new(), 0))
            },
        }
    }
}

fn is_op_or_open_exec<N>(e: &Expr<N>) -> (r: bool)
    ensures
        r == spec_is_op_or_open(view_expr(*e)),
{
    match e {
        Expr::Minus => true,
        Expr::Multiply => true,
        Expr::Plus => true,
        Expr::Power => true,
        Expr::Modulo => true,
        Expr::Divide => true,
        Expr::OpenParen => true,
        _ => false,
    }
}

/// The calculator: holds the latest answer for the host to display.
pub struct Calc<N: CalcValue> {
    pub answer: Result<N, CalcError>,
}

fn is_digit_or_dot_exec(c: char) -> (r: bool)
    ensures
        r == spec_is_digit_or_dot(c),
{
    (c as u32 >= 48 && c as u32 <= 57) || c == '.'
}

impl<N: CalcValue> Calc<N> {
    /// A fresh calculator answering zero.
    pub fn new() -> (r: Calc<N>)
        ensures
            r.answer matches Ok(z) && z == N::spec_zero(),
    {
        Calc { answer: Ok(N::zero()) }
    }

    /// Splits the raw source into tokens, exactly as `spec_tokenize` says.
    pub fn tokenize(source: &str) -> (r: Result<Vec<Expr<N>>, CalcError>)
        ensures
            match r {
                Ok(v) => spec_tokenize::<N>(source@) == Ok::<_, ErrInfo>(view_exprs(v@)),
                Err(e) => spec_tokenize::<N>(source@) matches Err(m) && e@ == m,
            },
    {
        let ghost src = source@;
        let n = source.unicode_len();
        let mut out: Vec<Expr<N>> = Vec::new();
        let mut number_buf = String::new();
        proof {
            assert(view_exprs(out@) =~= Seq::<ExprModel<N>>::empty());
        }
        let mut i: usize = 0;
        while i < n
            invariant
                i <= n,
                n == src.len(),
                src == source@,
                spec_tokenize::<N>(src) == spec_tokenize_from::<N>(
                    src,
                    i as int,
                    number_buf@,
                    view_exprs(out@),
                ),
            decreases n - i,
        {
            let c = source.get_char(i);
            if is_digit_or_dot_exec(c) {
                push_char(&mut number_buf, c);
                let next_digit = if i + 1 < n {
                    is_digit_or_dot_exec(source.get_char(i + 1))
                } else {
                    false
                };
                if !next_digit {
                    match N::parse_literal(number_buf.as_str()) {
                        Some(val) => {
                            proof {
                                lemma_view_push(out@, Expr::Number(val));
                            }
                            out.push(Expr::Number(val));
                            number_buf = String::new();
                        },
                        None => {
                            return Err(
                                CalcError::from_expr_list(
                                    String::from_str("Tokeniser could not parse to number"),
                                    &out,
                                    i,
                                ),
                            );
                        },
                    }
                }
            } else if c == ' ' {
            } else {
                let tok: Option<Expr<N>> = match c {
                    '+' => Some(Expr::Plus),
                    '-' => Some(Expr::Minus),
                    '*' | 'x' => Some(Expr::Multiply),
                    '/' | '\u{f7}' => Some(Expr::Divide),
                    '^' => Some(Expr::Power),
                    '%' => Some(Expr::Modulo),
                    '(' => Some(Expr::OpenParen),
                    ')' => Some(Expr::CloseParen),
                    _ => None,
                };
                match tok {
                    Some(t) => {
                        proof {
                            lemma_view_push(out@, t);
                        }
                        out.push(t);
                    },
                    None => {
                        let mut m = String::from_str("Unknown token ");
                        push_char(&mut m, c);
                        return Err(CalcError::new(m, source.to_owned(), i));
                    },
                }
            }
            i += 1;
        }
        if !number_buf.as_str().is_empty() {
            match N::parse_literal(number_buf.as_str()) {
                Some(val) => {
                    proof {
                        lemma_view_push(out@, Expr::Number(val));
                    }
                    out.push(Expr::Number(val));
                },
                None => {
                    return Err(
                        CalcError::new(
                            String::from_str("Tokeniser could not parse to number"),
                            number_buf,
                            0,
                        ),
                    );
                },
            }
        }
        Ok(out)
    }

    /// Reclassifies binary minus as unary minus where it has no left
    /// operand, exactly as `spec_unary_pass` says.
    pub fn parse_unary_minus(exprs: Vec<Expr<N>>) -> (r: Vec<Expr<N>>)
        ensures
            view_exprs(r@) == spec_unary_pass(view_exprs(exprs@)),
    {
        let ghost orig = exprs@;
        let mut exprs = exprs;
        let mut rev: Vec<Expr<N>> = Vec::new();
        while exprs.len() > 0
            invariant
                exprs@ == orig.take(exprs@.len() as int),
                rev@.len() + exprs@.len() == orig.len(),
                forall|t: int| 0 <= t < rev@.len() ==> #[trigger] rev@[t] == orig[orig.len() - 1
                    - t],
            decreases exprs@.len(),
        {
            let e = exprs.pop().unwrap();
            rev.push(e);
            proof {
                assert(exprs@ =~= orig.take(exprs@.len() as int));
            }
        }
        let mut out: Vec<Expr<N>> = Vec::new();
        proof {
            assert(orig.take(0) =~= Seq::<Expr<N>>::empty());
            assert(view_exprs(out@) =~= spec_unary_pass(view_exprs(orig.take(0))));
        }
        while rev.len() > 0
            invariant
                rev@.len() <= orig.len(),
                forall|t: int| 0 <= t < rev@.len() ==> #[trigger] rev@[t] == orig[orig.len() - 1
                    - t],
                view_exprs(out@) == spec_unary_pass(
                    view_exprs(orig.take(orig.len() - rev@.len())),
                ),
            decreases rev@.len(),
        {
            let ghost i = orig.len() - rev@.len();
            let ghost pre = view_exprs(orig.take(i as int));
            let ghost prev = spec_unary_pass(pre);
            let e = rev.pop().unwrap();
            proof {
                assert(e == orig[i as int]);
                assert(orig.take(i + 1 as int).drop_last() =~= orig.take(i as int));
                lemma_view_exprs(orig.take(i + 1 as int));
                lemma_view_exprs(orig.take(i as int));
                assert(view_exprs(orig.take(i + 1 as int)).drop_last() =~= pre);
                assert(view_exprs(orig.take(i + 1 as int)).last() == view_expr(e));
                lemma_view_exprs(out@);
                assert(view_exprs(out@) == prev);
                assert(out@.len() == prev.len());
            }
            let lwo = if out.len() == 0 {
                true
            } else {
                is_op_or_open_exec(&out[out.len() - 1])
            };
            proof {
                if out@.len() > 0 {
                    assert(prev.last() == view_expr(out@[out@.len() - 1]));
                }
                assert(lwo == (prev.len() == 0 || spec_is_op_or_open(prev.last())));
            }
            let is_minus = match &e {
                Expr::Minus => true,
                _ => false,
            };
            if is_minus && lwo {
                proof {
                    lemma_view_push(out@, Expr::UnaryMinus);
                }
                out.push(Expr::UnaryMinus);
            } else {
                proof {
                    lemma_view_push(out@, e);
                }
                out.push(e);
            }
        }
        proof {
            assert(orig.take(orig.len() as int) =~= orig);
        }
        out
    }

    /// Resolves parentheses into nested bracket groups, exactly as
    /// `spec_brackets` says; unbalanced parentheses are a reported error,
    /// never a malformed token stream.
    pub fn evaluate_brackets(input: Vec<Expr<N>>) -> (r: Result<Vec<Expr<N>>, CalcError>)
        ensures
            match r {
                Ok(v) => spec_brackets::<N>(view_exprs(input@)) == Ok::<_, ErrInfo>(
                    view_exprs(v@),
                ),
                Err(e) => spec_brackets::<N>(view_exprs(input@)) matches Err(m) && e@ == m,
            },
        decreases input@.len(),
    {
        let ghost orig = input@;
        let ghost ms = view_exprs(orig);
        proof {
            lemma_view_exprs(orig);
        }
        let n = input.len();
        if n == 0 {
            let out: Vec<Expr<N>> = Vec::new();
            proof {
                assert(view_exprs(out@) =~= Seq::<ExprModel<N>>::empty());
            }
            return Ok(out);
        }
        let head_open: bool;
        match &input[0] {
            Expr::CloseParen => {
                return Err(
                    CalcError::from_expr_list(String::from_str("Unbalanced parentheses"), &input, 0),
                );
            },
            Expr::OpenParen => {
                head_open = true;
            },
            _ => {
                head_open = false;
            },
        }
        let mut input = input;
        if !head_open {
            let head = input.remove(0);
            proof {
                assert(input@ =~= orig.drop_first());
                lemma_view_sub(orig, 1, orig.len() as int);
                assert(orig.drop_first() =~= orig.subrange(1, orig.len() as int));
                assert(ms.drop_first() =~= ms.subrange(1, ms.len() as int));
            }
            match Self::evaluate_brackets(input) {
                Err(e) => Err(e),
                Ok(br) => {
                    let mut out: Vec<Expr<N>> = Vec::new();
                    out.push(head);
                    let mut br = br;
                    let ghost brv = br@;
                    out.append(&mut br);
                    proof {
                        assert(out@ =~= seq![head] + brv);
                        lemma_view_concat(seq![head], brv);
                        lemma_view_exprs(seq![head]);
                        assert(view_exprs(seq![head]) =~= seq![view_expr(head)]);
                        assert(view_expr(head) == ms[0]);
                        lemma_view_sub(orig, 1, orig.len() as int);
                        assert(orig.drop_first() =~= orig.subrange(1, orig.len() as int));
                        assert(ms.drop_first() =~= ms.subrange(1, ms.len() as int));
                        assert(spec_brackets::<N>(ms) == Ok::<_, ErrInfo>(view_exprs(out@)));
                    }
                    Ok(out)
                },
            }
        } else {
            // Find the matching close parenthesis.
            let mut j: usize = 1;
            let mut depth: usize = 1;
            while j < n && depth > 0
                invariant
                    1 <= j <= n,
                    n == orig.len(),
                    ms == view_exprs(orig),
                    ms.len() == n,
                    forall|t: int| 0 <= t < n ==> ms[t] == view_expr(orig[t]),
                    input@ == orig,
                    depth <= j,
                    depth > 0 ==> spec_close_idx(ms, j as int, depth as int) == spec_close_idx(
                        ms,
                        1,
                        1,
                    ),
                    depth == 0 ==> 1 <= j - 1 < n && spec_close_idx(ms, 1, 1) == j - 1,
                decreases n - j,
            {
                match &input[j] {
                    Expr::OpenParen => {
                        depth += 1;
                    },
                    Expr::CloseParen => {
                        depth -= 1;
                    },
                    _ => {},
                }
                j += 1;
            }
            if depth > 0 {
                proof {
                    assert(spec_close_idx(ms, 1, 1) == n);
                }
                return Err(
                    CalcError::from_expr_list(String::from_str("Unbalanced parentheses"), &input, 0),
                );
            }
            let c = j - 1;
            proof {
                assert(spec_close_idx(ms, 1, 1) == c);
            }
            let rest = input.split_off(c + 1);
            let opener = input.remove(0);
            let closer = input.pop();
            let inner = input;
            proof {
                assert(inner@ =~= orig.subrange(1, c as int));
                assert(rest@ =~= orig.subrange(c + 1 as int, orig.len() as int));
                lemma_view_sub(orig, 1, c as int);
                lemma_view_sub(orig, c + 1 as int, orig.len() as int);
            }
            match Self::evaluate_brackets(inner) {
                Err(e) => Err(e),
                Ok(bi) => {
                    match Self::evaluate_brackets(rest) {
                        Err(e) => Err(e),
                        Ok(br) => {
                            let ghost biv = bi@;
                            let ghost brv = br@;
                            let mut out: Vec<Expr<N>> = Vec::new();
                            out.push(Expr::Bracket(bi));
                            let mut br = br;
                            out.append(&mut br);
                            proof {
                                assert(out@ =~= seq![Expr::Bracket(bi)] + brv);
                                lemma_view_concat(seq![Expr::Bracket(bi)], brv);
                                lemma_view_exprs(seq![Expr::<N>::Bracket(bi)]);
                                assert(view_exprs(seq![Expr::<N>::Bracket(bi)]) =~= seq![
                                    view_expr(Expr::<N>::Bracket(bi)),
                                ]);
                                assert(view_exprs(biv) == view_exprs(bi@));
                                assert(spec_brackets::<N>(ms) == Ok::<_, ErrInfo>(view_exprs(out@)));
                            }
                            Ok(out)
                        },
                    }
                },
            }
        }
    }
}

impl<N: CalcValue> Calc<N> {
    /// Applies the operator at `idx` in place, exactly as `spec_apply_at`
    /// says. The list is unchanged when an error is reported.
    pub fn apply_op(input: &mut Vec<Expr<N>>, idx: usize) -> (r: Result<(), CalcError>)
        requires
            idx < old(input)@.len(),
            spec_precedence(view_expr(old(input)@[idx as int])) >= 1,
        ensures
            match r {
                Ok(()) => spec_apply_at::<N>(view_exprs(old(input)@), idx as int) == Ok::<
                    _,
                    ErrInfo,
                >(view_exprs(final(input)@)),
                Err(e) => {
                    &&& spec_apply_at::<N>(view_exprs(old(input)@), idx as int) matches Err(m)
                        && e@ == m
                    &&& final(input)@ == old(input)@
                },
            },
    {
        let ghost orig = input@;
        let ghost ms = view_exprs(orig);
        proof {
            lemma_view_exprs(orig);
        }
        let n = input.len();
        let is_unary = matches!(&input[idx], Expr::UnaryMinus);
        if is_unary {
            if idx + 1 >= n {
                return Err(
                    CalcError::from_expr_list(
                        String::from_str("RHS of UnaryMinus not found"),
                        input,
                        idx + 1,
                    ),
                );
            }
            let rhs_val: N;
            match &input[idx + 1] {
                Expr::Number(v) => {
                    rhs_val = *v;
                },
                _ => {
                    return Err(
                        CalcError::from_expr_list(
                            String::from_str("Could not turn RHS of UnaryMinus into number"),
                            input,
                            idx + 1,
                        ),
                    );
                },
            }
            let neg = N::negate(&rhs_val);
            input.set(idx, Expr::Number(neg));
            input.remove(idx + 1);
            proof {
                assert(input@ =~= orig.take(idx as int).push(Expr::Number(neg)) + orig.skip(
                    idx + 2,
                ));
                lemma_view_exprs(input@);
                assert(view_exprs(input@) =~= ms.take(idx as int) + seq![
                    ExprModel::Number(N::spec_negate(rhs_val)),
                ] + ms.skip(idx + 2));
            }
            Ok(())
        } else {
            if idx == 0 {
                return Err(
                    CalcError::from_expr_list(
                        String::from_str("Operator as first arg isnt allowed"),
                        input,
                        0,
                    ),
                );
            }
            let lhs_val: N;
            match &input[idx - 1] {
                Expr::Number(v) => {
                    lhs_val = *v;
                },
                _ => {
                    return Err(
                        CalcError::from_expr_list(
                            String::from_str(
                                "LHS Expression could not be turned into number. This is a strange state. Pls notify developer",
                            ),
                            input,
                            idx - 1,
                        ),
                    );
                },
            }
            if idx + 1 >= n {
                return Err(
                    CalcError::from_expr_list(
                        String::from_str("RHS of operator not found"),
                        input,
                        idx + 1,
                    ),
                );
            }
            let rhs_val: N;
            match &input[idx + 1] {
                Expr::Number(v) => {
                    rhs_val = *v;
                },
                _ => {
                    return Err(
                        CalcError::from_expr_list(
                            String::from_str("RHS Expression could not be turned into number"),
                            input,
                            idx + 1,
                        ),
                    );
                },
            }
            let op = binop_of_exec(&input[idx]);
            let val = N::apply_binary(op, &lhs_val, &rhs_val);
            input.set(idx - 1, Expr::Number(val));
            input.remove(idx);
            input.remove(idx);
            proof {
                assert(input@ =~= orig.take(idx - 1 as int).push(Expr::Number(val)) + orig.skip(
                    idx + 2,
                ));
                lemma_view_exprs(input@);
                assert(view_exprs(input@) =~= ms.take(idx - 1 as int) + seq![
                    ExprModel::Number(N::spec_apply(spec_binop_of(ms[idx as int]), lhs_val, rhs_val)),
                ] + ms.skip(idx + 2));
            }
            Ok(())
        }
    }

    /// Runs one precedence level to exhaustion: scan left to right, apply
    /// the operator found, and rescan from one position to its left.
    fn run_level(input: Vec<Expr<N>>, prec: u8) -> (r: Result<Vec<Expr<N>>, CalcError>)
        requires
            1 <= prec <= 4,
        ensures
            match r {
                Ok(v) => spec_run_level::<N>(view_exprs(input@), prec as int) == Ok::<_, ErrInfo>(
                    view_exprs(v@),
                ),
                Err(e) => spec_run_level::<N>(view_exprs(input@), prec as int) matches Err(m)
                    && e@ == m,
            },
    {
        let ghost morig = view_exprs(input@);
        let mut work = input;
        let mut idx: usize = 0;
        while idx < work.len()
            invariant
                1 <= prec <= 4,
                idx <= work@.len(),
                morig == view_exprs(input@),
                spec_run_level::<N>(morig, prec as int) == spec_run_level::<N>(
                    view_exprs(work@),
                    prec as int,
                ),
                forall|t: int|
                    0 <= t < idx ==> spec_precedence(#[trigger] view_exprs(work@)[t]) != prec,
            decreases work@.len(), work@.len() - idx,
        {
            let ghost mcur = view_exprs(work@);
            proof {
                lemma_view_exprs(work@);
            }
            let p = work[idx].precedence();
            let hit = match p {
                Some(q) => q == prec,
                None => false,
            };
            if hit {
                proof {
                    lemma_first_op_is(mcur, prec as int, idx as int);
                }
                match Self::apply_op(&mut work, idx) {
                    Ok(()) => {
                        proof {
                            lemma_view_exprs(work@);
                            assert(view_exprs(work@).len() < mcur.len());
                            assert(spec_run_level::<N>(mcur, prec as int) == spec_run_level::<N>(
                                view_exprs(work@),
                                prec as int,
                            ));
                            // The application touches nothing left of `idx - 1`.
                            assert forall|t: int| 0 <= t < idx - 1 implies spec_precedence(
                                #[trigger] view_exprs(work@)[t],
                            ) != prec by {
                                if mcur[idx as int] is UnaryMinus {
                                    assert(view_exprs(work@)[t] == mcur.take(idx as int)[t]);
                                }
                                assert(view_exprs(work@)[t] == mcur[t]);
                            }
                        }
                        idx = if idx > 0 {
                            idx - 1
                        } else {
                            0
                        };
                    },
                    Err(e) => {
                        proof {
                            assert(spec_run_level::<N>(mcur, prec as int) matches Err(m) && e@
                                == m);
                        }
                        return Err(e);
                    },
                }
            } else {
                idx += 1;
            }
        }
        proof {
            lemma_view_exprs(work@);
            lemma_first_op(view_exprs(work@), prec as int, 0);
        }
        Ok(work)
    }

    /// Reduces a bracket-resolved token list to a single value, exactly
    /// as `spec_eval` says.
    pub fn calc(input: Vec<Expr<N>>) -> (r: Result<N, CalcError>)
        ensures
            match r {
                Ok(n) => spec_eval::<N>(view_exprs(input@)) == Ok::<N, ErrInfo>(n),
                Err(e) => spec_eval::<N>(view_exprs(input@)) matches Err(m) && e@ == m,
            },
        decreases input@,
    {
        let ghost orig = input@;
        let ghost morig = view_exprs(orig);
        proof {
            lemma_view_exprs(orig);
        }
        // Bracket pass: reverse, then consume left to right.
        let mut inp = input;
        let mut rev: Vec<Expr<N>> = Vec::new();
        while inp.len() > 0
            invariant
                inp@ == orig.take(inp@.len() as int),
                rev@.len() + inp@.len() == orig.len(),
                forall|t: int| 0 <= t < rev@.len() ==> #[trigger] rev@[t] == orig[orig.len() - 1
                    - t],
            decreases inp@.len(),
        {
            let e = inp.pop().unwrap();
            rev.push(e);
            proof {
                assert(inp@ =~= orig.take(inp@.len() as int));
            }
        }
        let mut out: Vec<Expr<N>> = Vec::new();
        let mut prev_num = false;
        proof {
            assert(morig.skip(0) =~= morig);
            assert(view_exprs(out@) =~= Seq::<ExprModel<N>>::empty());
            let step = spec_pass1::<N>(morig, false);
            if step is Ok {
                let rest = step->Ok_0;
                assert(view_exprs(out@) + rest =~= rest);
            }
        }
        while rev.len() > 0
            invariant
                rev@.len() <= orig.len(),
                orig == input@,
                morig == view_exprs(orig),
                morig.len() == orig.len(),
                forall|t: int| 0 <= t < orig.len() ==> morig[t] == view_expr(orig[t]),
                forall|t: int| 0 <= t < rev@.len() ==> #[trigger] rev@[t] == orig[orig.len() - 1
                    - t],
                spec_pass1::<N>(morig, false) == (match spec_pass1::<N>(
                    morig.skip((orig.len() - rev@.len()) as int),
                    prev_num,
                ) {
                    Err(e) => Err(e),
                    Ok(rest) => Ok(view_exprs(out@) + rest),
                }),
            decreases rev@.len(),
        {
            let ghost i = orig.len() - rev@.len();
            let ghost mrem = morig.skip(i as int);
            let e = rev.pop().unwrap();
            proof {
                assert(e == orig[i as int]);
                assert(mrem[0] == morig[i as int]);
                assert(mrem.drop_first() =~= morig.skip(i + 1 as int));
            }
            match e {
                Expr::Bracket(v) => {
                    proof {
                        assert(orig[i as int] == Expr::<N>::Bracket(v));
                        assert(view_expr(orig[i as int]) == ExprModel::<N>::Bracket(
                            view_exprs(v@),
                        ));
                        assert(decreases_to!(orig => orig[i as int]));
                        assert(decreases_to!(orig[i as int] => v));
                        assert(decreases_to!(v => v@));
                        assert(decreases_to!(orig => v@));
                    }
                    match Self::calc(v) {
                        Err(err) => {
                            return Err(err);
                        },
                        Ok(nval) => {
                            let ghost preout = view_exprs(out@);
                            if prev_num {
                                proof {
                                    lemma_view_push(out@, Expr::Multiply);
                                    lemma_view_push(out@.push(Expr::Multiply), Expr::Number(nval));
                                }
                                out.push(Expr::Multiply);
                                out.push(Expr::Number(nval));
                                proof {
                                    assert(view_exprs(out@) =~= preout + seq![
                                        ExprModel::<N>::Multiply,
                                        ExprModel::Number(nval),
                                    ]);
                                }
                            } else {
                                proof {
                                    lemma_view_push(out@, Expr::Number(nval));
                                }
                                out.push(Expr::Number(nval));
                                proof {
                                    assert(view_exprs(out@) =~= preout + seq![
                                        ExprModel::<N>::Number(nval),
                                    ]);
                                }
                            }
                            prev_num = true;
                            proof {
                                let step = spec_pass1::<N>(morig.skip(i + 1 as int), true);
                                if step is Ok {
                                    let rest = step->Ok_0;
                                    assert((preout + (seq![
                                        ExprModel::<N>::Multiply,
                                        ExprModel::Number(nval),
                                    ] + rest)) =~= ((preout + seq![
                                        ExprModel::<N>::Multiply,
                                        ExprModel::Number(nval),
                                    ]) + rest));
                                    assert((preout + (seq![ExprModel::<N>::Number(nval)] + rest))
                                        =~= ((preout + seq![ExprModel::<N>::Number(nval)]) + rest));
                                }
                            }
                        },
                    }
                },
                other => {
                    let ghost preout = view_exprs(out@);
                    let is_num = matches!(&other, Expr::Number(_));
                    proof {
                        lemma_view_push(out@, other);
                        assert(is_num == (view_expr(other) is Number));
                    }
                    prev_num = is_num;
                    out.push(other);
                    proof {
                        assert(view_exprs(out@) =~= preout + seq![view_expr(orig[i as int])]);
                        let step = spec_pass1::<N>(morig.skip(i + 1 as int), is_num);
                        if step is Ok {
                            let rest = step->Ok_0;
                            assert((preout + (seq![view_expr(orig[i as int])] + rest)) =~= ((preout
                                + seq![view_expr(orig[i as int])]) + rest));
                        }
                    }
                },
            }
        }
        proof {
            assert(morig.skip(orig.len() as int) =~= Seq::<ExprModel<N>>::empty());
            assert(view_exprs(out@) + Seq::<ExprModel<N>>::empty() =~= view_exprs(out@));
        }
        let ghost mpass = view_exprs(out@);

        // Precedence pass, highest level first.
        let mut work = out;
        let mut prec: u8 = 4;
        while prec >= 1
            invariant
                prec <= 4,
                morig == view_exprs(input@),
                spec_pass1::<N>(morig, false) == Ok::<_, ErrInfo>(mpass),
                spec_run_from::<N>(mpass, 4) == spec_run_from::<N>(
                    view_exprs(work@),
                    prec as int,
                ),
            decreases prec,
        {
            match Self::run_level(work, prec) {
                Err(e) => {
                    return Err(e);
                },
                Ok(w2) => {
                    work = w2;
                },
            }
            prec = prec - 1;
        }

        if work.len() != 1 {
            proof {
                lemma_view_exprs(work@);
            }
            return Err(CalcError::from_expr_list(String::from_str("Invalid expression"), &work, 0));
        }
        proof {
            lemma_view_exprs(work@);
        }
        work[0].get_number()
    }

    /// The decision half of one host message: a keystroke recomputes the
    /// answer from the full input text; other messages change nothing.
    pub fn update(&mut self, msg: &crate::module::ModuleMessage)
        ensures
            match msg {
                crate::module::ModuleMessage::TextChanged(input) => match final(self).answer {
                    Ok(n) => spec_calculate::<N>(input@) == Ok::<N, ErrInfo>(n),
                    Err(e) => spec_calculate::<N>(input@) matches Err(m) && e@ == m,
                },
                _ => *final(self) == *old(self),
            },
    {
        match msg {
            crate::module::ModuleMessage::TextChanged(input) => {
                self.answer = Self::calculate_str(input.as_str());
            },
            _ => {},
        }
    }

    /// Evaluates a raw expression string through the whole pipeline,
    /// exactly as `spec_calculate` says.
    pub fn calculate_str(input: &str) -> (r: Result<N, CalcError>)
        ensures
            match r {
                Ok(n) => spec_calculate::<N>(input@) == Ok::<N, ErrInfo>(n),
                Err(e) => spec_calculate::<N>(input@) matches Err(m) && e@ == m,
            },
    {
        let tokens = match Self::tokenize(input) {
            Ok(t) => t,
            Err(e) => {
                return Err(e);
            },
        };
        let normalised = Self::parse_unary_minus(tokens);
        let bracketed = match Self::evaluate_brackets(normalised) {
            Ok(b) => b,
            Err(e) => {
                return Err(e);
            },
        };
        Self::calc(bracketed)
    }
}

} // verus!
