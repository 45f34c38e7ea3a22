//! The grammar of the rule language, as a recursive-descent parser over
//! tokens. Every parse function starts at a token position and, on success,
//! hands back what it built and the position after it, strictly further on.

use vstd::prelude::*;
use crate::ast;
use crate::ast::{
    Action, BinaryOperator, Expr, FilterRule, FunctionBody, FunctionDef, MatchAction, MatchRule, Phase,
    Program, SortOrder, SortRule, Statement, UnaryOperator, Workflow,
};
use crate::environment::same_text;
use crate::lexer::{lemma_parse_error_extend, parse_error, parse_error_text, lex_from, tokenize, toks_model, Punct, Tok, Token};
use crate::ops::concat;
use crate::text::nat_to_text;

verus! {

broadcast use vstd::std_specs::vec::axiom_vec_index_decreases, vstd::std_specs::vec::axiom_vec_decreases_to_view,
    vstd::seq::axiom_seq_index_decreases;

/// An expression as the grammar builds it: names and strings by their characters.
pub enum ExprM {
    Binary(Box<ExprM>, BinaryOperator, Box<ExprM>),
    Unary(UnaryOperator, Box<ExprM>),
    Call(Seq<char>, Seq<ExprM>),
    Member(Seq<char>, Seq<char>),
    List(Seq<ExprM>),
    Ident(Seq<char>),
    Number(i64),
    Str(Seq<char>),
    Bool(bool),
}

pub open spec fn expr_model(e: Expr) -> ExprM
    decreases e, 0nat,
{
    match e {
        Expr::BinaryOp { left, op, right } => ExprM::Binary(Box::new(expr_model(*left)), op, Box::new(expr_model(*right))),
        Expr::UnaryOp { op, expr } => ExprM::Unary(op, Box::new(expr_model(*expr))),
        Expr::FunctionCall { name, args } => ExprM::Call(name@, exprs_model(args@, args@.len() as nat)),
        Expr::MemberAccess { object, property } => ExprM::Member(object@, property@),
        Expr::List(items) => ExprM::List(exprs_model(items@, items@.len() as nat)),
        Expr::Ident(n) => ExprM::Ident(n@),
        Expr::Number(n) => ExprM::Number(n),
        Expr::String(s) => ExprM::Str(s@),
        Expr::Bool(b) => ExprM::Bool(b),
    }
}

/// The models of the first `n` expressions.
pub open spec fn exprs_model(v: Seq<Expr>, n: nat) -> Seq<ExprM>
    decreases v, n,
{
    if n == 0 || n > v.len() {
        Seq::empty()
    } else {
        exprs_model(v, (n - 1) as nat).push(expr_model(v[n - 1]))
    }
}

pub proof fn lemma_exprs_model(v: Seq<Expr>, n: nat)
    requires
        n <= v.len(),
    ensures
        exprs_model(v, n) =~= Seq::new(n, |j: int| expr_model(v[j])),
    decreases n,
{
    if n > 0 {
        lemma_exprs_model(v, (n - 1) as nat);
    }
}

pub open spec fn is_w(ts: Seq<Tok>, p: int, w: Seq<char>) -> bool {
    0 <= p < ts.len() && ts[p] == Tok::Word(w)
}

pub open spec fn is_p(ts: Seq<Tok>, p: int, q: Punct) -> bool {
    0 <= p < ts.len() && ts[p] == Tok::Punct(q)
}

/// What a parse of an expression gives: the expression and the position
/// after it, or nothing when the tokens there do not form one.
pub type ParseM = Option<(ExprM, int)>;

pub open spec fn binary_m(l: ExprM, op: BinaryOperator, r: ExprM) -> ExprM {
    ExprM::Binary(Box::new(l), op, Box::new(r))
}

/// `expr := or_expr`
pub open spec fn sp_expr(ts: Seq<Tok>, p: int) -> ParseM
    decreases ts.len() - p, 8int,
{
    sp_or(ts, p)
}

/// `or_expr := and_expr ("or" and_expr)*`
pub open spec fn sp_or(ts: Seq<Tok>, p: int) -> ParseM
    decreases ts.len() - p, 7int,
{
    match sp_and(ts, p) {
        Some((l, q)) => if p < q <= ts.len() { sp_or_rest(ts, l, q) } else { None },
        None => None,
    }
}

pub open spec fn sp_or_rest(ts: Seq<Tok>, l: ExprM, q: int) -> ParseM
    decreases ts.len() - q, 7int,
{
    if is_w(ts, q, "or"@) {
        match sp_and(ts, q + 1) {
            Some((r, q2)) => if q + 1 < q2 <= ts.len() { sp_or_rest(ts, binary_m(l, BinaryOperator::Or, r), q2) } else { None },
            None => None,
        }
    } else {
        Some((l, q))
    }
}

/// `and_expr := comp_expr ("and" comp_expr)*`
pub open spec fn sp_and(ts: Seq<Tok>, p: int) -> ParseM
    decreases ts.len() - p, 6int,
{
    match sp_comp(ts, p) {
        Some((l, q)) => if p < q <= ts.len() { sp_and_rest(ts, l, q) } else { None },
        None => None,
    }
}

pub open spec fn sp_and_rest(ts: Seq<Tok>, l: ExprM, q: int) -> ParseM
    decreases ts.len() - q, 6int,
{
    if is_w(ts, q, "and"@) {
        match sp_comp(ts, q + 1) {
            Some((r, q2)) => if q + 1 < q2 <= ts.len() { sp_and_rest(ts, binary_m(l, BinaryOperator::And, r), q2) } else { None },
            None => None,
        }
    } else {
        Some((l, q))
    }
}

/// The comparison operator at `p`, if any.
pub open spec fn comp_op(ts: Seq<Tok>, p: int) -> Option<BinaryOperator> {
    if is_p(ts, p, Punct::EqEq) { Some(BinaryOperator::Eq) }
    else if is_p(ts, p, Punct::NotEq) { Some(BinaryOperator::Neq) }
    else if is_p(ts, p, Punct::Lt) { Some(BinaryOperator::Lt) }
    else if is_p(ts, p, Punct::Le) { Some(BinaryOperator::Le) }
    else if is_p(ts, p, Punct::Gt) { Some(BinaryOperator::Gt) }
    else if is_p(ts, p, Punct::Ge) { Some(BinaryOperator::Ge) }
    else if is_w(ts, p, "in"@) { Some(BinaryOperator::In) }
    else { None }
}

/// `comp_expr := add_expr (comp_op add_expr)?`
pub open spec fn sp_comp(ts: Seq<Tok>, p: int) -> ParseM
    decreases ts.len() - p, 5int,
{
    match sp_add(ts, p) {
        Some((l, q)) => if p < q <= ts.len() {
            match comp_op(ts, q) {
                Some(op) => match sp_add(ts, q + 1) {
                    Some((r, q2)) => Some((binary_m(l, op, r), q2)),
                    None => None,
                },
                None => Some((l, q)),
            }
        } else {
            None
        },
        None => None,
    }
}

/// `add_expr := mul_expr (("+" | "-") mul_expr)*`
pub open spec fn sp_add(ts: Seq<Tok>, p: int) -> ParseM
    decreases ts.len() - p, 4int,
{
    match sp_mul(ts, p) {
        Some((l, q)) => if p < q <= ts.len() { sp_add_rest(ts, l, q) } else { None },
        None => None,
    }
}

pub open spec fn sp_add_rest(ts: Seq<Tok>, l: ExprM, q: int) -> ParseM
    decreases ts.len() - q, 4int,
{
    if is_p(ts, q, Punct::Plus) || is_p(ts, q, Punct::Minus) {
        let op = if is_p(ts, q, Punct::Plus) { BinaryOperator::Add } else { BinaryOperator::Sub };
        match sp_mul(ts, q + 1) {
            Some((r, q2)) => if q + 1 < q2 <= ts.len() { sp_add_rest(ts, binary_m(l, op, r), q2) } else { None },
            None => None,
        }
    } else {
        Some((l, q))
    }
}

/// `mul_expr := unary_expr (("*" | "/") unary_expr)*`
pub open spec fn sp_mul(ts: Seq<Tok>, p: int) -> ParseM
    decreases ts.len() - p, 3int,
{
    match sp_unary(ts, p) {
        Some((l, q)) => if p < q <= ts.len() { sp_mul_rest(ts, l, q) } else { None },
        None => None,
    }
}

pub open spec fn sp_mul_rest(ts: Seq<Tok>, l: ExprM, q: int) -> ParseM
    decreases ts.len() - q, 3int,
{
    if is_p(ts, q, Punct::Star) || is_p(ts, q, Punct::Slash) {
        let op = if is_p(ts, q, Punct::Star) { BinaryOperator::Mul } else { BinaryOperator::Div };
        match sp_unary(ts, q + 1) {
            Some((r, q2)) => if q + 1 < q2 <= ts.len() { sp_mul_rest(ts, binary_m(l, op, r), q2) } else { None },
            None => None,
        }
    } else {
        Some((l, q))
    }
}

/// `unary_expr := ("-" | "!") unary_expr | primary_expr`
pub open spec fn sp_unary(ts: Seq<Tok>, p: int) -> ParseM
    decreases ts.len() - p, 2int,
{
    if is_p(ts, p, Punct::Minus) || is_p(ts, p, Punct::Bang) {
        let op = if is_p(ts, p, Punct::Minus) { UnaryOperator::Neg } else { UnaryOperator::Not };
        match sp_unary(ts, p + 1) {
            Some((e, q)) => Some((ExprM::Unary(op, Box::new(e)), q)),
            None => None,
        }
    } else {
        sp_primary(ts, p)
    }
}

/// The rest of a dotted path after `prop`, from position `q`.
pub open spec fn sp_path(ts: Seq<Tok>, prop: Seq<char>, q: int) -> Option<(Seq<char>, int)>
    decreases ts.len() - q,
{
    if is_p(ts, q, Punct::Dot) {
        if q + 1 < ts.len() && ts[q + 1] is Word {
            sp_path(ts, prop + "."@ + ts[q + 1]->Word_0, q + 2)
        } else {
            None
        }
    } else {
        Some((prop, q))
    }
}

/// `primary_expr := number | string | "true" | "false" | ident "(" items ")"
///                | ident ("." ident)+ | ident | "(" expr ")" | "[" items "]"`
pub open spec fn sp_primary(ts: Seq<Tok>, p: int) -> ParseM
    decreases ts.len() - p, 1int,
{
    if p < 0 || p >= ts.len() {
        None
    } else {
        match ts[p] {
            Tok::Int(n) => Some((ExprM::Number(n), p + 1)),
            Tok::Text(s) => Some((ExprM::Str(s), p + 1)),
            Tok::Word(w) => if w == "true"@ {
                Some((ExprM::Bool(true), p + 1))
            } else if w == "false"@ {
                Some((ExprM::Bool(false), p + 1))
            } else if is_p(ts, p + 1, Punct::LParen) {
                match sp_items(ts, p + 2, Punct::RParen) {
                    Some((args, q)) => Some((ExprM::Call(w, args), q)),
                    None => None,
                }
            } else if is_p(ts, p + 1, Punct::Dot) {
                if p + 2 < ts.len() && ts[p + 2] is Word {
                    match sp_path(ts, ts[p + 2]->Word_0, p + 3) {
                        Some((prop, q)) => Some((ExprM::Member(w, prop), q)),
                        None => None,
                    }
                } else {
                    None
                }
            } else {
                Some((ExprM::Ident(w), p + 1))
            },
            Tok::Punct(Punct::LParen) => match sp_expr(ts, p + 1) {
                Some((e, q)) => if p + 1 < q <= ts.len() && is_p(ts, q, Punct::RParen) { Some((e, q + 1)) } else { None },
                None => None,
            },
            Tok::Punct(Punct::LBracket) => match sp_items(ts, p + 1, Punct::RBracket) {
                Some((items, q)) => Some((ExprM::List(items), q)),
                None => None,
            },
            _ => None,
        }
    }
}

/// Expressions separated by commas up to `close`, which is consumed.
pub open spec fn sp_items(ts: Seq<Tok>, p: int, close: Punct) -> Option<(Seq<ExprM>, int)>
    decreases ts.len() - p, 9int,
{
    if is_p(ts, p, close) {
        Some((Seq::empty(), p + 1))
    } else {
        match sp_expr(ts, p) {
            Some((e, q)) => if p < q <= ts.len() { sp_items_rest(ts, seq![e], q, close) } else { None },
            None => None,
        }
    }
}

pub open spec fn sp_items_rest(ts: Seq<Tok>, acc: Seq<ExprM>, q: int, close: Punct) -> Option<(Seq<ExprM>, int)>
    decreases ts.len() - q, 9int,
{
    if is_p(ts, q, Punct::Comma) {
        match sp_expr(ts, q + 1) {
            Some((e, q2)) => if q + 1 < q2 <= ts.len() { sp_items_rest(ts, acc.push(e), q2, close) } else { None },
            None => None,
        }
    } else if is_p(ts, q, close) {
        Some((acc, q + 1))
    } else {
        None
    }
}

pub enum ActionM {
    AssignScore(ExprM),
    Log(Seq<char>),
    Assign(Seq<char>),
}

pub struct RuleM {
    pub condition: ExprM,
    pub action: ActionM,
}

pub struct MatchRuleM {
    pub condition: ExprM,
    pub target: Seq<char>,
}

pub enum PhaseM {
    Score(Seq<RuleM>),
    Match(Seq<MatchRuleM>),
    Filter(ExprM),
    Sort(ExprM, SortOrder),
}

pub open spec fn action_model(a: Action) -> ActionM {
    match a {
        Action::AssignScore(e) => ActionM::AssignScore(expr_model(e)),
        Action::Log(s) => ActionM::Log(s@),
        Action::Assign(s) => ActionM::Assign(s@),
    }
}

pub open spec fn rule_model(r: ast::Rule) -> RuleM {
    RuleM { condition: expr_model(r.condition), action: action_model(r.action) }
}

pub open spec fn match_rule_model(r: MatchRule) -> MatchRuleM {
    MatchRuleM {
        condition: expr_model(r.condition),
        target: match r.action { MatchAction::AssignTo(n) => n@ },
    }
}

pub open spec fn phase_model(p: Phase) -> PhaseM {
    match p {
        Phase::Score(rules) => PhaseM::Score(Seq::new(rules@.len(), |i: int| rule_model(rules@[i]))),
        Phase::Match(rules) => PhaseM::Match(Seq::new(rules@.len(), |i: int| match_rule_model(rules@[i]))),
        Phase::Filter(f) => PhaseM::Filter(expr_model(f.condition)),
        Phase::Sort(r) => PhaseM::Sort(expr_model(r.key), r.order),
    }
}

/// `action := "score" "=" expr | "log" string`
pub open spec fn sp_action(ts: Seq<Tok>, p: int) -> Option<(ActionM, int)> {
    if is_w(ts, p, "score"@) {
        if is_p(ts, p + 1, Punct::Assign) {
            match sp_expr(ts, p + 2) {
                Some((e, q)) => Some((ActionM::AssignScore(e), q)),
                None => None,
            }
        } else {
            None
        }
    } else if is_w(ts, p, "log"@) {
        if p + 1 < ts.len() && ts[p + 1] is Text {
            Some((ActionM::Log(ts[p + 1]->Text_0), p + 2))
        } else {
            None
        }
    } else {
        None
    }
}

/// `rule := "when" expr "then" action`
pub open spec fn sp_rule(ts: Seq<Tok>, p: int) -> Option<(RuleM, int)> {
    if is_w(ts, p, "when"@) {
        match sp_expr(ts, p + 1) {
            Some((c, q)) => if is_w(ts, q, "then"@) {
                match sp_action(ts, q + 1) {
                    Some((a, q2)) => Some((RuleM { condition: c, action: a }, q2)),
                    None => None,
                }
            } else {
                None
            },
            None => None,
        }
    } else {
        None
    }
}

/// `match_action := "assign" "to" ident`: the name assigned to.
pub open spec fn sp_match_action(ts: Seq<Tok>, p: int) -> Option<(Seq<char>, int)> {
    if is_w(ts, p, "assign"@) && is_w(ts, p + 1, "to"@) && p + 2 < ts.len() && ts[p + 2] is Word {
        Some((ts[p + 2]->Word_0, p + 3))
    } else {
        None
    }
}

/// `match_rule := "when" expr "then" match_action`
pub open spec fn sp_match_rule(ts: Seq<Tok>, p: int) -> Option<(MatchRuleM, int)> {
    if is_w(ts, p, "when"@) {
        match sp_expr(ts, p + 1) {
            Some((c, q)) => if is_w(ts, q, "then"@) {
                match sp_match_action(ts, q + 1) {
                    Some((t, q2)) => Some((MatchRuleM { condition: c, target: t }, q2)),
                    None => None,
                }
            } else {
                None
            },
            None => None,
        }
    } else {
        None
    }
}

/// Score rules from `q` up to the closing brace, which is consumed.
pub open spec fn sp_rules(ts: Seq<Tok>, acc: Seq<RuleM>, q: int) -> Option<(Seq<RuleM>, int)>
    decreases ts.len() - q,
{
    if is_w(ts, q, "when"@) {
        match sp_rule(ts, q) {
            Some((r, q2)) => if q < q2 <= ts.len() { sp_rules(ts, acc.push(r), q2) } else { None },
            None => None,
        }
    } else if is_p(ts, q, Punct::RBrace) {
        Some((acc, q + 1))
    } else {
        None
    }
}

/// Match rules from `q` up to the closing brace, which is consumed.
pub open spec fn sp_match_rules(ts: Seq<Tok>, acc: Seq<MatchRuleM>, q: int) -> Option<(Seq<MatchRuleM>, int)>
    decreases ts.len() - q,
{
    if is_w(ts, q, "when"@) {
        match sp_match_rule(ts, q) {
            Some((r, q2)) => if q < q2 <= ts.len() { sp_match_rules(ts, acc.push(r), q2) } else { None },
            None => None,
        }
    } else if is_p(ts, q, Punct::RBrace) {
        Some((acc, q + 1))
    } else {
        None
    }
}

/// `phase := "score" "{" rule* "}" | "match" "{" match_rule* "}"
///         | "filter" "{" "when" expr "}" | "sort" "{" "by" expr ("asc" | "desc")? "}"`
pub open spec fn sp_phase(ts: Seq<Tok>, p: int) -> Option<(PhaseM, int)> {
    if is_w(ts, p, "score"@) {
        if is_p(ts, p + 1, Punct::LBrace) {
            match sp_rules(ts, Seq::empty(), p + 2) {
                Some((rs, q)) => Some((PhaseM::Score(rs), q)),
                None => None,
            }
        } else {
            None
        }
    } else if is_w(ts, p, "match"@) {
        if is_p(ts, p + 1, Punct::LBrace) {
            match sp_match_rules(ts, Seq::empty(), p + 2) {
                Some((rs, q)) => Some((PhaseM::Match(rs), q)),
                None => None,
            }
        } else {
            None
        }
    } else if is_w(ts, p, "filter"@) {
        sp_filter(ts, p)
    } else if is_w(ts, p, "sort"@) {
        sp_sort(ts, p)
    } else {
        None
    }
}

/// `filter_phase := "filter" "{" "when" expr "}"`
pub open spec fn sp_filter(ts: Seq<Tok>, p: int) -> Option<(PhaseM, int)> {
    if is_w(ts, p, "filter"@) && is_p(ts, p + 1, Punct::LBrace) && is_w(ts, p + 2, "when"@) {
        match sp_expr(ts, p + 3) {
            Some((c, q)) => if is_p(ts, q, Punct::RBrace) { Some((PhaseM::Filter(c), q + 1)) } else { None },
            None => None,
        }
    } else {
        None
    }
}

/// `sort_phase := "sort" "{" "by" expr ("asc" | "desc")? "}"`
pub open spec fn sp_sort(ts: Seq<Tok>, p: int) -> Option<(PhaseM, int)> {
    if is_w(ts, p, "sort"@) && is_p(ts, p + 1, Punct::LBrace) && is_w(ts, p + 2, "by"@) {
        match sp_expr(ts, p + 3) {
            Some((k, q)) => {
                let (order, q2) = if is_w(ts, q, "asc"@) {
                    (SortOrder::Asc, q + 1)
                } else if is_w(ts, q, "desc"@) {
                    (SortOrder::Desc, q + 1)
                } else {
                    (SortOrder::Asc, q)
                };
                if is_p(ts, q2, Punct::RBrace) { Some((PhaseM::Sort(k, order), q2 + 1)) } else { None }
            },
            None => None,
        }
    } else {
        None
    }
}

/// Phases from `q` up to the closing brace, which is consumed.
pub open spec fn sp_phases(ts: Seq<Tok>, acc: Seq<PhaseM>, q: int) -> Option<(Seq<PhaseM>, int)>
    decreases ts.len() - q,
{
    if is_p(ts, q, Punct::RBrace) {
        Some((acc, q + 1))
    } else {
        match sp_phase(ts, q) {
            Some((ph, q2)) => if q < q2 <= ts.len() { sp_phases(ts, acc.push(ph), q2) } else { None },
            None => None,
        }
    }
}

/// `workflow := "workflow" ident "{" phase* "}"`: its name and phases.
pub open spec fn sp_workflow(ts: Seq<Tok>, p: int) -> Option<(Seq<char>, Seq<PhaseM>, int)> {
    if is_w(ts, p, "workflow"@) && p + 1 < ts.len() && ts[p + 1] is Word && is_p(ts, p + 2, Punct::LBrace) {
        match sp_phases(ts, Seq::empty(), p + 3) {
            Some((phs, q)) => Some((ts[p + 1]->Word_0, phs, q)),
            None => None,
        }
    } else {
        None
    }
}

/// A statement as the grammar builds it.
pub enum StmtM {
    Let(Seq<char>, ExprM),
    Assign(Seq<char>, ExprM),
    If(ExprM, Seq<StmtM>, Option<Seq<StmtM>>),
    Return(ExprM),
    Expression(ExprM),
}

pub open spec fn stmt_model(st: Statement) -> StmtM
    decreases st, 0nat,
{
    match st {
        Statement::Let { name, value } => StmtM::Let(name@, expr_model(value)),
        Statement::Assign { name, value } => StmtM::Assign(name@, expr_model(value)),
        Statement::If { condition, then_body, else_body } => StmtM::If(
            expr_model(condition),
            stmts_model(then_body@, then_body@.len() as nat),
            match else_body {
                Some(b) => Some(stmts_model(b@, b@.len() as nat)),
                None => None,
            },
        ),
        Statement::Return(e) => StmtM::Return(expr_model(e)),
        Statement::Expression(e) => StmtM::Expression(expr_model(e)),
    }
}

/// The models of the first `n` statements.
pub open spec fn stmts_model(v: Seq<Statement>, n: nat) -> Seq<StmtM>
    decreases v, n,
{
    if n == 0 || n > v.len() {
        Seq::empty()
    } else {
        stmts_model(v, (n - 1) as nat).push(stmt_model(v[n - 1]))
    }
}

pub proof fn lemma_stmts_model(v: Seq<Statement>, n: nat)
    requires
        n <= v.len(),
    ensures
        stmts_model(v, n) =~= Seq::new(n, |j: int| stmt_model(v[j])),
    decreases n,
{
    if n > 0 {
        lemma_stmts_model(v, (n - 1) as nat);
    }
}

/// The position after an optional `;` at `q`.
pub open spec fn after_semi(ts: Seq<Tok>, q: int) -> int {
    if is_p(ts, q, Punct::Semi) { q + 1 } else { q }
}

/// `block := "{" statement+ "}"`
pub open spec fn sp_block(ts: Seq<Tok>, p: int) -> Option<(Seq<StmtM>, int)>
    decreases ts.len() - p, 12int,
{
    if is_p(ts, p, Punct::LBrace) {
        sp_block_rest(ts, Seq::empty(), p + 1)
    } else {
        None
    }
}

pub open spec fn sp_block_rest(ts: Seq<Tok>, acc: Seq<StmtM>, q: int) -> Option<(Seq<StmtM>, int)>
    decreases ts.len() - q, 11int,
{
    if is_p(ts, q, Punct::RBrace) {
        if acc.len() > 0 { Some((acc, q + 1)) } else { None }
    } else if q < 0 || q >= ts.len() {
        None
    } else {
        match sp_statement(ts, q) {
            Some((st, q2)) => if q < q2 <= ts.len() { sp_block_rest(ts, acc.push(st), q2) } else { None },
            None => None,
        }
    }
}

/// `statement := "let" ident "=" expr ";"? | ident "=" expr ";"?
///             | "if" expr block ("else" block)? | "return" expr ";"? | expr ";"?`
pub open spec fn sp_statement(ts: Seq<Tok>, p: int) -> Option<(StmtM, int)>
    decreases ts.len() - p, 10int,
{
    if is_w(ts, p, "let"@) {
        if p + 1 < ts.len() && ts[p + 1] is Word && is_p(ts, p + 2, Punct::Assign) {
            match sp_expr(ts, p + 3) {
                Some((e, q)) => Some((StmtM::Let(ts[p + 1]->Word_0, e), after_semi(ts, q))),
                None => None,
            }
        } else {
            None
        }
    } else if is_w(ts, p, "if"@) {
        match sp_expr(ts, p + 1) {
            Some((c, q)) => if p + 1 < q <= ts.len() {
                match sp_block(ts, q) {
                    Some((tb, q2)) => if q < q2 <= ts.len() {
                        if is_w(ts, q2, "else"@) {
                            match sp_block(ts, q2 + 1) {
                                Some((eb, q3)) => Some((StmtM::If(c, tb, Some(eb)), q3)),
                                None => None,
                            }
                        } else {
                            Some((StmtM::If(c, tb, None), q2))
                        }
                    } else {
                        None
                    },
                    None => None,
                }
            } else {
                None
            },
            None => None,
        }
    } else if is_w(ts, p, "return"@) {
        match sp_expr(ts, p + 1) {
            Some((e, q)) => Some((StmtM::Return(e), after_semi(ts, q))),
            None => None,
        }
    } else if 0 <= p < ts.len() && is_p(ts, p + 1, Punct::Assign) && ts[p] is Word {
        match sp_expr(ts, p + 2) {
            Some((e, q)) => Some((StmtM::Assign(ts[p]->Word_0, e), after_semi(ts, q))),
            None => None,
        }
    } else {
        match sp_expr(ts, p) {
            Some((e, q)) => Some((StmtM::Expression(e), after_semi(ts, q))),
            None => None,
        }
    }
}

pub enum BodyM {
    Expression(ExprM),
    Block(Seq<StmtM>),
}

pub struct FunctionM {
    pub name: Seq<char>,
    pub params: Seq<Seq<char>>,
    pub body: BodyM,
}

pub open spec fn function_model(f: FunctionDef) -> FunctionM {
    FunctionM {
        name: f.name@,
        params: ast::names_model(f.params@),
        body: match f.body {
            FunctionBody::Expression(e) => BodyM::Expression(expr_model(e)),
            FunctionBody::Block(b) => BodyM::Block(stmts_model(b@, b@.len() as nat)),
        },
    }
}

pub open spec fn functions_model(v: Seq<FunctionDef>) -> Seq<FunctionM> {
    Seq::new(v.len(), |i: int| function_model(v[i]))
}

pub open spec fn workflows_model(v: Seq<Workflow>) -> Seq<(Seq<char>, Seq<PhaseM>)> {
    Seq::new(v.len(), |i: int| (v[i].name@, phases_model(v[i].phases@)))
}

/// Parameter names from `p`, up to (not including) the closing parenthesis.
pub open spec fn sp_params(ts: Seq<Tok>, p: int) -> Option<(Seq<Seq<char>>, int)> {
    if is_p(ts, p, Punct::RParen) {
        Some((Seq::empty(), p))
    } else if 0 <= p < ts.len() && ts[p] is Word {
        sp_params_rest(ts, seq![ts[p]->Word_0], p + 1)
    } else {
        None
    }
}

pub open spec fn sp_params_rest(ts: Seq<Tok>, acc: Seq<Seq<char>>, q: int) -> Option<(Seq<Seq<char>>, int)>
    decreases ts.len() - q,
{
    if is_p(ts, q, Punct::Comma) {
        if q + 1 < ts.len() && ts[q + 1] is Word {
            sp_params_rest(ts, acc.push(ts[q + 1]->Word_0), q + 2)
        } else {
            None
        }
    } else {
        Some((acc, q))
    }
}

/// `function_def := "function" ident "(" (ident ("," ident)*)? ")" ("=" expr | block)`
pub open spec fn sp_function(ts: Seq<Tok>, p: int) -> Option<(FunctionM, int)> {
    if is_w(ts, p, "function"@) && p + 1 < ts.len() && ts[p + 1] is Word && is_p(ts, p + 2, Punct::LParen) {
        match sp_params(ts, p + 3) {
            Some((ps, q)) => if is_p(ts, q, Punct::RParen) {
                if is_p(ts, q + 1, Punct::Assign) {
                    match sp_expr(ts, q + 2) {
                        Some((e, q2)) => Some((FunctionM { name: ts[p + 1]->Word_0, params: ps, body: BodyM::Expression(e) }, q2)),
                        None => None,
                    }
                } else {
                    match sp_block(ts, q + 1) {
                        Some((b, q2)) => Some((FunctionM { name: ts[p + 1]->Word_0, params: ps, body: BodyM::Block(b) }, q2)),
                        None => None,
                    }
                }
            } else {
                None
            },
            None => None,
        }
    } else {
        None
    }
}

/// `program := (function_def | workflow)*` from `q` to the end of the tokens.
pub open spec fn sp_program(
    ts: Seq<Tok>,
    fs: Seq<FunctionM>,
    ws: Seq<(Seq<char>, Seq<PhaseM>)>,
    q: int,
) -> Option<(Seq<FunctionM>, Seq<(Seq<char>, Seq<PhaseM>)>)>
    decreases ts.len() - q,
{
    if q >= ts.len() {
        Some((fs, ws))
    } else if is_w(ts, q, "function"@) {
        match sp_function(ts, q) {
            Some((f, q2)) => if q < q2 <= ts.len() { sp_program(ts, fs.push(f), ws, q2) } else { None },
            None => None,
        }
    } else {
        match sp_workflow(ts, q) {
            Some((n, phs, q2)) => if q < q2 <= ts.len() { sp_program(ts, fs, ws.push((n, phs)), q2) } else { None },
            None => None,
        }
    }
}

/// `r` is what the grammar gives: `spec` holds the model of the expression
/// and the position after it, or nothing when `r` is an error.
pub open spec fn parsed_as(r: Parsed<Expr>, spec: ParseM) -> bool {
    match r {
        Ok((e, q)) => spec == Some((expr_model(e), q as int)),
        Err(_) => spec is None,
    }
}

/// Tokens, and what a parse function built from a prefix of them.
pub type Parsed<T> = Result<(T, usize), String>;

pub open spec fn advanced<T>(r: Parsed<T>, pos: usize, len: nat) -> bool {
    r matches Ok((_, p)) ==> pos < p <= len
}

fn expected(what: &str, pos: usize) -> (r: String)
    ensures
        parse_error_text(r@),
{
    let a = parse_error("expected ");
    let b = concat(a.as_str(), what);
    let c = concat(b.as_str(), " at token ");
    let n = nat_to_text(pos as u64);
    proof {
        lemma_parse_error_extend(a@, what@);
        lemma_parse_error_extend(b@, " at token "@);
        lemma_parse_error_extend(c@, n@);
    }
    concat(c.as_str(), n.as_str())
}

fn is_word(toks: &Vec<Token>, pos: usize, w: &str) -> (r: bool)
    ensures
        r ==> pos < toks.len(),
        r == is_w(toks_model(toks@), pos as int, w@),
{
    if pos < toks.len() {
        match &toks[pos] {
            Token::Word(x) => same_text(x.as_str(), w),
            _ => false,
        }
    } else {
        false
    }
}

fn is_punct(toks: &Vec<Token>, pos: usize, p: Punct) -> (r: bool)
    ensures
        r ==> pos < toks.len(),
        r == is_p(toks_model(toks@), pos as int, p),
{
    if pos < toks.len() {
        match &toks[pos] {
            Token::Punct(q) => *q == p,
            _ => false,
        }
    } else {
        false
    }
}

fn expect_word(toks: &Vec<Token>, pos: usize, w: &str) -> (r: Result<usize, String>)
    ensures
        r is Err ==> parse_error_text(r->Err_0@),
        r matches Ok(p) ==> p == pos + 1 && pos < toks.len(),
        r is Ok <==> is_w(toks_model(toks@), pos as int, w@),
{
    if is_word(toks, pos, w) {
        Ok(pos + 1)
    } else {
        Err(expected(w, pos))
    }
}

fn expect_punct(toks: &Vec<Token>, pos: usize, p: Punct, what: &str) -> (r: Result<usize, String>)
    ensures
        r is Err ==> parse_error_text(r->Err_0@),
        r matches Ok(q) ==> q == pos + 1 && pos < toks.len(),
        r is Ok <==> is_p(toks_model(toks@), pos as int, p),
{
    if is_punct(toks, pos, p) {
        Ok(pos + 1)
    } else {
        Err(expected(what, pos))
    }
}

/// An identifier.
pub fn parse_ident(toks: &Vec<Token>, pos: usize) -> (r: Parsed<String>)
    ensures
        r is Err ==> parse_error_text(r->Err_0@),
        r matches Ok((_, p)) ==> p == pos + 1 && pos < toks.len(),
        match r {
            Ok((x, _)) => toks_model(toks@)[pos as int] == Tok::Word(x@),
            Err(_) => !(pos < toks.len() && toks_model(toks@)[pos as int] is Word),
        },
{
    if pos < toks.len() {
        match &toks[pos] {
            Token::Word(x) => Ok((x.clone(), pos + 1)),
            _ => Err(expected("identifier", pos)),
        }
    } else {
        Err(expected("identifier", pos))
    }
}

fn skip_semi(toks: &Vec<Token>, pos: usize) -> (r: usize)
    ensures
        pos <= r,
        r <= toks.len() || r == pos,
        r as int == after_semi(toks_model(toks@), pos as int),
{
    if is_punct(toks, pos, Punct::Semi) {
        pos + 1
    } else {
        pos
    }
}

fn binary(left: Expr, op: BinaryOperator, right: Expr) -> (r: Expr)
    ensures
        r == (Expr::BinaryOp { left: Box::new(left), op, right: Box::new(right) }),
{
    Expr::BinaryOp { left: Box::new(left), op, right: Box::new(right) }
}

/// `expr := or_expr`
pub fn parse_expr(toks: &Vec<Token>, pos: usize) -> (r: Parsed<Expr>)
    ensures
        advanced(r, pos, toks.len() as nat),
        r is Err ==> parse_error_text(r->Err_0@),
        parsed_as(r, sp_expr(toks_model(toks@), pos as int)),
    decreases toks.len() - pos, 8nat,
{
    parse_or(toks, pos)
}

/// `or_expr := and_expr ("or" and_expr)*`, folded to the left.
pub fn parse_or(toks: &Vec<Token>, pos: usize) -> (r: Parsed<Expr>)
    ensures
        advanced(r, pos, toks.len() as nat),
        r is Err ==> parse_error_text(r->Err_0@),
        parsed_as(r, sp_or(toks_model(toks@), pos as int)),
    decreases toks.len() - pos, 7nat,
{
    let (mut left, mut p) = parse_and(toks, pos)?;
    while is_word(toks, p, "or")
        invariant
            pos < p <= toks.len(),
            sp_or(toks_model(toks@), pos as int) == sp_or_rest(toks_model(toks@), expr_model(left), p as int),
        decreases toks.len() - p,
    {
        let (right, q) = parse_and(toks, p + 1)?;
        left = binary(left, BinaryOperator::Or, right);
        p = q;
    }
    Ok((left, p))
}

/// `and_expr := comp_expr ("and" comp_expr)*`, folded to the left.
pub fn parse_and(toks: &Vec<Token>, pos: usize) -> (r: Parsed<Expr>)
    ensures
        advanced(r, pos, toks.len() as nat),
        r is Err ==> parse_error_text(r->Err_0@),
        parsed_as(r, sp_and(toks_model(toks@), pos as int)),
    decreases toks.len() - pos, 6nat,
{
    let (mut left, mut p) = parse_comp(toks, pos)?;
    while is_word(toks, p, "and")
        invariant
            pos < p <= toks.len(),
            sp_and(toks_model(toks@), pos as int) == sp_and_rest(toks_model(toks@), expr_model(left), p as int),
        decreases toks.len() - p,
    {
        let (right, q) = parse_comp(toks, p + 1)?;
        left = binary(left, BinaryOperator::And, right);
        p = q;
    }
    Ok((left, p))
}

fn comparison_at(toks: &Vec<Token>, pos: usize) -> (r: Option<BinaryOperator>)
    ensures
        r is Some ==> pos < toks.len(),
        r == comp_op(toks_model(toks@), pos as int),
{
    if pos >= toks.len() {
        return None;
    }
    match &toks[pos] {
        Token::Punct(Punct::EqEq) => Some(BinaryOperator::Eq),
        Token::Punct(Punct::NotEq) => Some(BinaryOperator::Neq),
        Token::Punct(Punct::Lt) => Some(BinaryOperator::Lt),
        Token::Punct(Punct::Le) => Some(BinaryOperator::Le),
        Token::Punct(Punct::Gt) => Some(BinaryOperator::Gt),
        Token::Punct(Punct::Ge) => Some(BinaryOperator::Ge),
        Token::Word(w) => if same_text(w.as_str(), "in") { Some(BinaryOperator::In) } else { None },
        _ => None,
    }
}

/// `comp_expr := add_expr (comp_op add_expr)?`
pub fn parse_comp(toks: &Vec<Token>, pos: usize) -> (r: Parsed<Expr>)
    ensures
        advanced(r, pos, toks.len() as nat),
        r is Err ==> parse_error_text(r->Err_0@),
        parsed_as(r, sp_comp(toks_model(toks@), pos as int)),
    decreases toks.len() - pos, 5nat,
{
    let (left, p) = parse_add(toks, pos)?;
    match comparison_at(toks, p) {
        Some(op) => {
            let (right, q) = parse_add(toks, p + 1)?;
            Ok((binary(left, op, right), q))
        },
        None => Ok((left, p)),
    }
}

/// `add_expr := mul_expr (("+" | "-") mul_expr)*`, folded to the left.
pub fn parse_add(toks: &Vec<Token>, pos: usize) -> (r: Parsed<Expr>)
    ensures
        advanced(r, pos, toks.len() as nat),
        r is Err ==> parse_error_text(r->Err_0@),
        parsed_as(r, sp_add(toks_model(toks@), pos as int)),
    decreases toks.len() - pos, 4nat,
{
    let (mut left, mut p) = parse_mul(toks, pos)?;
    while is_punct(toks, p, Punct::Plus) || is_punct(toks, p, Punct::Minus)
        invariant
            pos < p <= toks.len(),
            sp_add(toks_model(toks@), pos as int) == sp_add_rest(toks_model(toks@), expr_model(left), p as int),
        decreases toks.len() - p,
    {
        let op = if is_punct(toks, p, Punct::Plus) { BinaryOperator::Add } else { BinaryOperator::Sub };
        let (right, q) = parse_mul(toks, p + 1)?;
        left = binary(left, op, right);
        p = q;
    }
    Ok((left, p))
}

/// `mul_expr := unary_expr (("*" | "/") unary_expr)*`, folded to the left.
pub fn parse_mul(toks: &Vec<Token>, pos: usize) -> (r: Parsed<Expr>)
    ensures
        advanced(r, pos, toks.len() as nat),
        r is Err ==> parse_error_text(r->Err_0@),
        parsed_as(r, sp_mul(toks_model(toks@), pos as int)),
    decreases toks.len() - pos, 3nat,
{
    let (mut left, mut p) = parse_unary(toks, pos)?;
    while is_punct(toks, p, Punct::Star) || is_punct(toks, p, Punct::Slash)
        invariant
            pos < p <= toks.len(),
            sp_mul(toks_model(toks@), pos as int) == sp_mul_rest(toks_model(toks@), expr_model(left), p as int),
        decreases toks.len() - p,
    {
        let op = if is_punct(toks, p, Punct::Star) { BinaryOperator::Mul } else { BinaryOperator::Div };
        let (right, q) = parse_unary(toks, p + 1)?;
        left = binary(left, op, right);
        p = q;
    }
    Ok((left, p))
}

/// `unary_expr := ("-" | "!") unary_expr | primary_expr`
pub fn parse_unary(toks: &Vec<Token>, pos: usize) -> (r: Parsed<Expr>)
    ensures
        advanced(r, pos, toks.len() as nat),
        r is Err ==> parse_error_text(r->Err_0@),
        parsed_as(r, sp_unary(toks_model(toks@), pos as int)),
    decreases toks.len() - pos, 2nat,
{
    if is_punct(toks, pos, Punct::Minus) {
        let (e, p) = parse_unary(toks, pos + 1)?;
        Ok((Expr::UnaryOp { op: UnaryOperator::Neg, expr: Box::new(e) }, p))
    } else if is_punct(toks, pos, Punct::Bang) {
        let (e, p) = parse_unary(toks, pos + 1)?;
        Ok((Expr::UnaryOp { op: UnaryOperator::Not, expr: Box::new(e) }, p))
    } else {
        parse_primary(toks, pos)
    }
}

/// Expressions separated by commas up to the closing `close`, which is
/// consumed; `pos` is just after the opening bracket. No trailing comma.
pub fn parse_items(toks: &Vec<Token>, pos: usize, close: Punct) -> (r: Parsed<Vec<Expr>>)
    ensures
        advanced(r, pos, toks.len() as nat),
        r is Err ==> parse_error_text(r->Err_0@),
        match r {
            Ok((v, q)) => sp_items(toks_model(toks@), pos as int, close) == Some((exprs_model(v@, v@.len() as nat), q as int)),
            Err(_) => sp_items(toks_model(toks@), pos as int, close) is None,
        },
    decreases toks.len() - pos, 9nat,
{
    let mut items: Vec<Expr> = Vec::new();
    if is_punct(toks, pos, close) {
        assert(exprs_model(items@, 0) =~= Seq::<ExprM>::empty());
        return Ok((items, pos + 1));
    }
    let (first, mut p) = parse_expr(toks, pos)?;
    let ghost fm = expr_model(first);
    items.push(first);
    proof {
        lemma_exprs_model(items@, 1);
        assert(exprs_model(items@, 1) =~= seq![fm]);
    }
    while is_punct(toks, p, Punct::Comma)
        invariant
            pos < p <= toks.len(),
            sp_items(toks_model(toks@), pos as int, close)
                == sp_items_rest(toks_model(toks@), exprs_model(items@, items@.len() as nat), p as int, close),
        decreases toks.len() - p,
    {
        let (e, q) = parse_expr(toks, p + 1)?;
        let ghost before = items@;
        let ghost em = expr_model(e);
        items.push(e);
        proof {
            lemma_exprs_model(before, before.len() as nat);
            lemma_exprs_model(items@, items@.len() as nat);
            assert(exprs_model(items@, items@.len() as nat) =~= exprs_model(before, before.len() as nat).push(em));
        }
        p = q;
    }
    let end = expect_punct(toks, p, close, "closing bracket")?;
    Ok((items, end))
}

/// `primary_expr := number | string | bool | list | function_call
///                | member_access | ident | "(" expr ")"`
pub fn parse_primary(toks: &Vec<Token>, pos: usize) -> (r: Parsed<Expr>)
    ensures
        advanced(r, pos, toks.len() as nat),
        r is Err ==> parse_error_text(r->Err_0@),
        parsed_as(r, sp_primary(toks_model(toks@), pos as int)),
    decreases toks.len() - pos, 1nat,
{
    if pos >= toks.len() {
        return Err(expected("expression", pos));
    }
    match &toks[pos] {
        Token::Int(n) => Ok((Expr::Number(*n), pos + 1)),
        Token::Text(s) => Ok((Expr::String(s.clone()), pos + 1)),
        Token::Word(w) => {
            if same_text(w.as_str(), "true") {
                Ok((Expr::Bool(true), pos + 1))
            } else if same_text(w.as_str(), "false") {
                Ok((Expr::Bool(false), pos + 1))
            } else if is_punct(toks, pos + 1, Punct::LParen) {
                let (args, p) = parse_items(toks, pos + 2, Punct::RParen)?;
                Ok((Expr::FunctionCall { name: w.clone(), args }, p))
            } else if is_punct(toks, pos + 1, Punct::Dot) {
                let (first, mut p) = parse_ident(toks, pos + 2)?;
                let ghost ts = toks_model(toks@);
                let ghost fw = first@;
                assert(ts[pos + 2] == Tok::Word(fw));
                let ghost wm = w@;
                assert(ts[pos as int] == Tok::Word(wm));
                assert(sp_primary(ts, pos as int) == match sp_path(ts, fw, pos + 3) {
                    Some((prop, q)) => Some((ExprM::Member(wm, prop), q)),
                    None => None,
                });
                let mut property = first;
                while is_punct(toks, p, Punct::Dot)
                    invariant
                        pos < p <= toks.len(),
                        ts == toks_model(toks@),
                        sp_primary(ts, pos as int) == match sp_path(ts, fw, pos + 3) {
                            Some((prop, q)) => Some((ExprM::Member(wm, prop), q)),
                            None => None,
                        },
                        sp_path(ts, fw, pos + 3) == sp_path(ts, property@, p as int),
                    decreases toks.len() - p,
                {
                    let (next, q) = match parse_ident(toks, p + 1) {
                        Ok(x) => x,
                        Err(e) => {
                            assert(sp_path(ts, property@, p as int) is None);
                            assert(sp_path(ts, fw, pos + 3) is None);
                            return Err(e);
                        },
                    };
                    assert(ts[p + 1] == Tok::Word(next@));
                    let a = concat(property.as_str(), ".");
                    property = concat(a.as_str(), next.as_str());
                    p = q;
                }
                Ok((Expr::MemberAccess { object: w.clone(), property }, p))
            } else {
                Ok((Expr::Ident(w.clone()), pos + 1))
            }
        },
        Token::Punct(Punct::LParen) => {
            let (e, p) = parse_expr(toks, pos + 1)?;
            let end = expect_punct(toks, p, Punct::RParen, "')'")?;
            Ok((e, end))
        },
        Token::Punct(Punct::LBracket) => {
            let (items, p) = parse_items(toks, pos + 1, Punct::RBracket)?;
            Ok((Expr::List(items), p))
        },
        _ => Err(expected("expression", pos)),
    }
}

/// `block := "{" statement+ "}"`
pub fn parse_block(toks: &Vec<Token>, pos: usize) -> (r: Parsed<Vec<Statement>>)
    ensures
        advanced(r, pos, toks.len() as nat),
        r is Err ==> parse_error_text(r->Err_0@),
        match r {
            Ok((v, q)) => sp_block(toks_model(toks@), pos as int) == Some((stmts_model(v@, v@.len() as nat), q as int)),
            Err(_) => sp_block(toks_model(toks@), pos as int) is None,
        },
    decreases toks.len() - pos, 11nat,
{
    let ghost ts = toks_model(toks@);
    let mut p = expect_punct(toks, pos, Punct::LBrace, "'{'")?;
    let mut stmts: Vec<Statement> = Vec::new();
    assert(stmts_model(stmts@, 0) =~= Seq::<StmtM>::empty());
    while !is_punct(toks, p, Punct::RBrace)
        invariant
            pos < p <= toks.len(),
            ts == toks_model(toks@),
            sp_block(ts, pos as int) == sp_block_rest(ts, stmts_model(stmts@, stmts@.len() as nat), p as int),
        decreases toks.len() - p,
    {
        if p >= toks.len() {
            return Err(expected("'}'", p));
        }
        let (st, q) = parse_statement(toks, p)?;
        let ghost before = stmts@;
        let ghost sm = stmt_model(st);
        stmts.push(st);
        proof {
            lemma_stmts_model(before, before.len() as nat);
            lemma_stmts_model(stmts@, stmts@.len() as nat);
            assert(stmts_model(stmts@, stmts@.len() as nat) =~= stmts_model(before, before.len() as nat).push(sm));
        }
        p = q;
    }
    proof { lemma_stmts_model(stmts@, stmts@.len() as nat); }
    if stmts.len() == 0 {
        return Err(expected("statement", p));
    }
    Ok((stmts, p + 1))
}

/// `statement := "let" ident "=" expr ";"? | ident "=" expr ";"?
///             | "if" expr block ("else" block)? | "return" expr ";"? | expr ";"?`
#[verifier::rlimit(100)]
#[verifier::spinoff_prover]
pub fn parse_statement(toks: &Vec<Token>, pos: usize) -> (r: Parsed<Statement>)
    ensures
        advanced(r, pos, toks.len() as nat),
        r is Err ==> parse_error_text(r->Err_0@),
        match r {
            Ok((st, q)) => sp_statement(toks_model(toks@), pos as int) == Some((stmt_model(st), q as int)),
            Err(_) => sp_statement(toks_model(toks@), pos as int) is None,
        },
    decreases toks.len() - pos, 10nat,
{
    if is_word(toks, pos, "let") {
        let (name, p) = parse_ident(toks, pos + 1)?;
        let p = expect_punct(toks, p, Punct::Assign, "'='")?;
        let (value, p) = parse_expr(toks, p)?;
        Ok((Statement::Let { name, value }, skip_semi(toks, p)))
    } else if is_word(toks, pos, "if") {
        let (condition, p) = parse_expr(toks, pos + 1)?;
        let (then_body, p) = parse_block(toks, p)?;
        if is_word(toks, p, "else") {
            let (else_stmts, q) = parse_block(toks, p + 1)?;
            Ok((Statement::If { condition, then_body, else_body: Some(else_stmts) }, q))
        } else {
            Ok((Statement::If { condition, then_body, else_body: None }, p))
        }
    } else if is_word(toks, pos, "return") {
        let (e, p) = parse_expr(toks, pos + 1)?;
        Ok((Statement::Return(e), skip_semi(toks, p)))
    } else if pos < toks.len() && is_punct(toks, pos + 1, Punct::Assign) && matches!(toks[pos], Token::Word(_)) {
        let (name, p) = parse_ident(toks, pos)?;
        let (value, p) = parse_expr(toks, p + 1)?;
        Ok((Statement::Assign { name, value }, skip_semi(toks, p)))
    } else {
        let (e, p) = parse_expr(toks, pos)?;
        Ok((Statement::Expression(e), skip_semi(toks, p)))
    }
}

pub open spec fn rules_model(v: Seq<ast::Rule>) -> Seq<RuleM> {
    Seq::new(v.len(), |i: int| rule_model(v[i]))
}

pub open spec fn match_rules_model(v: Seq<MatchRule>) -> Seq<MatchRuleM> {
    Seq::new(v.len(), |i: int| match_rule_model(v[i]))
}

pub open spec fn phases_model(v: Seq<Phase>) -> Seq<PhaseM> {
    Seq::new(v.len(), |i: int| phase_model(v[i]))
}

/// `action := "score" "=" expr | "log" string`
pub fn parse_action(toks: &Vec<Token>, pos: usize) -> (r: Parsed<Action>)
    ensures
        advanced(r, pos, toks.len() as nat),
        r is Err ==> parse_error_text(r->Err_0@),
        match r {
            Ok((a, q)) => sp_action(toks_model(toks@), pos as int) == Some((action_model(a), q as int)),
            Err(_) => sp_action(toks_model(toks@), pos as int) is None,
        },
{
    if is_word(toks, pos, "score") {
        let p = expect_punct(toks, pos + 1, Punct::Assign, "'='")?;
        let (e, p) = parse_expr(toks, p)?;
        Ok((Action::AssignScore(e), p))
    } else if is_word(toks, pos, "log") {
        if pos + 1 < toks.len() {
            match &toks[pos + 1] {
                Token::Text(s) => {
                    return Ok((Action::Log(s.clone()), pos + 2));
                },
                _ => {},
            }
        }
        Err(expected("string", pos + 1))
    } else {
        Err(expected("action", pos))
    }
}

/// `match_action := "assign" "to" ident`
pub fn parse_match_action(toks: &Vec<Token>, pos: usize) -> (r: Parsed<MatchAction>)
    ensures
        advanced(r, pos, toks.len() as nat),
        r is Err ==> parse_error_text(r->Err_0@),
        match r {
            Ok((a, q)) => sp_match_action(toks_model(toks@), pos as int)
                == Some((match a { MatchAction::AssignTo(n) => n@ }, q as int)),
            Err(_) => sp_match_action(toks_model(toks@), pos as int) is None,
        },
{
    let p = expect_word(toks, pos, "assign")?;
    let p = expect_word(toks, p, "to")?;
    let (name, p) = parse_ident(toks, p)?;
    Ok((MatchAction::AssignTo(name), p))
}

/// `rule := "when" expr "then" action`
pub fn parse_rule(toks: &Vec<Token>, pos: usize) -> (r: Parsed<ast::Rule>)
    ensures
        advanced(r, pos, toks.len() as nat),
        r is Err ==> parse_error_text(r->Err_0@),
        match r {
            Ok((x, q)) => sp_rule(toks_model(toks@), pos as int) == Some((rule_model(x), q as int)),
            Err(_) => sp_rule(toks_model(toks@), pos as int) is None,
        },
{
    let p = expect_word(toks, pos, "when")?;
    let (condition, p) = parse_expr(toks, p)?;
    let p = expect_word(toks, p, "then")?;
    let (action, p) = parse_action(toks, p)?;
    Ok((ast::Rule { condition, action }, p))
}

/// `match_rule := "when" expr "then" match_action`
pub fn parse_match_rule(toks: &Vec<Token>, pos: usize) -> (r: Parsed<MatchRule>)
    ensures
        advanced(r, pos, toks.len() as nat),
        r is Err ==> parse_error_text(r->Err_0@),
        match r {
            Ok((x, q)) => sp_match_rule(toks_model(toks@), pos as int) == Some((match_rule_model(x), q as int)),
            Err(_) => sp_match_rule(toks_model(toks@), pos as int) is None,
        },
{
    let p = expect_word(toks, pos, "when")?;
    let (condition, p) = parse_expr(toks, p)?;
    let p = expect_word(toks, p, "then")?;
    let (action, p) = parse_match_action(toks, p)?;
    Ok((MatchRule { condition, action }, p))
}

/// `score_phase := "score" "{" rule* "}"`
pub fn parse_score_phase(toks: &Vec<Token>, pos: usize) -> (r: Parsed<Vec<ast::Rule>>)
    ensures
        advanced(r, pos, toks.len() as nat),
        r is Err ==> parse_error_text(r->Err_0@),
        ({
            let ts = toks_model(toks@);
            let spec = if is_w(ts, pos as int, "score"@) && is_p(ts, pos + 1, Punct::LBrace) {
                sp_rules(ts, Seq::empty(), pos + 2)
            } else {
                None
            };
            match r {
                Ok((v, q)) => spec == Some((rules_model(v@), q as int)),
                Err(_) => spec is None,
            }
        }),
{
    let ghost ts = toks_model(toks@);
    let p = expect_word(toks, pos, "score")?;
    let mut p = expect_punct(toks, p, Punct::LBrace, "'{'")?;
    let mut rules: Vec<ast::Rule> = Vec::new();
    assert(rules_model(rules@) =~= Seq::<RuleM>::empty());
    while is_word(toks, p, "when")
        invariant
            pos < p <= toks.len(),
            ts == toks_model(toks@),
            sp_rules(ts, Seq::empty(), pos + 2) == sp_rules(ts, rules_model(rules@), p as int),
        decreases toks.len() - p,
    {
        let (rule, q) = parse_rule(toks, p)?;
        let ghost before = rules@;
        let ghost rm = rule_model(rule);
        rules.push(rule);
        assert(rules_model(rules@) =~= rules_model(before).push(rm));
        p = q;
    }
    let p = expect_punct(toks, p, Punct::RBrace, "'}'")?;
    Ok((rules, p))
}

/// `match_phase := "match" "{" match_rule* "}"`
pub fn parse_match_phase(toks: &Vec<Token>, pos: usize) -> (r: Parsed<Vec<MatchRule>>)
    ensures
        advanced(r, pos, toks.len() as nat),
        r is Err ==> parse_error_text(r->Err_0@),
        ({
            let ts = toks_model(toks@);
            let spec = if is_w(ts, pos as int, "match"@) && is_p(ts, pos + 1, Punct::LBrace) {
                sp_match_rules(ts, Seq::empty(), pos + 2)
            } else {
                None
            };
            match r {
                Ok((v, q)) => spec == Some((match_rules_model(v@), q as int)),
                Err(_) => spec is None,
            }
        }),
{
    let ghost ts = toks_model(toks@);
    let p = expect_word(toks, pos, "match")?;
    let mut p = expect_punct(toks, p, Punct::LBrace, "'{'")?;
    let mut rules: Vec<MatchRule> = Vec::new();
    assert(match_rules_model(rules@) =~= Seq::<MatchRuleM>::empty());
    while is_word(toks, p, "when")
        invariant
            pos < p <= toks.len(),
            ts == toks_model(toks@),
            sp_match_rules(ts, Seq::empty(), pos + 2) == sp_match_rules(ts, match_rules_model(rules@), p as int),
        decreases toks.len() - p,
    {
        let (rule, q) = parse_match_rule(toks, p)?;
        let ghost before = rules@;
        let ghost rm = match_rule_model(rule);
        rules.push(rule);
        assert(match_rules_model(rules@) =~= match_rules_model(before).push(rm));
        p = q;
    }
    let p = expect_punct(toks, p, Punct::RBrace, "'}'")?;
    Ok((rules, p))
}

/// `filter_phase := "filter" "{" "when" expr "}"`
pub fn parse_filter_phase(toks: &Vec<Token>, pos: usize) -> (r: Parsed<FilterRule>)
    ensures
        advanced(r, pos, toks.len() as nat),
        r is Err ==> parse_error_text(r->Err_0@),
        ({
            let ts = toks_model(toks@);
            let spec = sp_filter(ts, pos as int);
            match r {
                Ok((f, q)) => spec == Some((PhaseM::Filter(expr_model(f.condition)), q as int)),
                Err(_) => spec is None,
            }
        }),
{
    let p = expect_word(toks, pos, "filter")?;
    let p = expect_punct(toks, p, Punct::LBrace, "'{'")?;
    let p = expect_word(toks, p, "when")?;
    let (condition, p) = parse_expr(toks, p)?;
    let p = expect_punct(toks, p, Punct::RBrace, "'}'")?;
    Ok((FilterRule { condition }, p))
}

/// `sort_phase := "sort" "{" "by" expr ("asc" | "desc")? "}"`, ascending
/// when no order is given.
pub fn parse_sort_phase(toks: &Vec<Token>, pos: usize) -> (r: Parsed<SortRule>)
    ensures
        advanced(r, pos, toks.len() as nat),
        r is Err ==> parse_error_text(r->Err_0@),
        ({
            let ts = toks_model(toks@);
            let spec = sp_sort(ts, pos as int);
            match r {
                Ok((k, q)) => spec == Some((PhaseM::Sort(expr_model(k.key), k.order), q as int)),
                Err(_) => spec is None,
            }
        }),
{
    let p = expect_word(toks, pos, "sort")?;
    let p = expect_punct(toks, p, Punct::LBrace, "'{'")?;
    let p = expect_word(toks, p, "by")?;
    let (key, mut p) = parse_expr(toks, p)?;
    let mut order = SortOrder::Asc;
    if is_word(toks, p, "asc") {
        p = p + 1;
    } else if is_word(toks, p, "desc") {
        order = SortOrder::Desc;
        p = p + 1;
    }
    let p = expect_punct(toks, p, Punct::RBrace, "'}'")?;
    Ok((SortRule { key, order }, p))
}

/// `phase := score_phase | match_phase | filter_phase | sort_phase`
pub fn parse_phase(toks: &Vec<Token>, pos: usize) -> (r: Parsed<Phase>)
    ensures
        advanced(r, pos, toks.len() as nat),
        r is Err ==> parse_error_text(r->Err_0@),
        match r {
            Ok((ph, q)) => sp_phase(toks_model(toks@), pos as int) == Some((phase_model(ph), q as int)),
            Err(_) => sp_phase(toks_model(toks@), pos as int) is None,
        },
{
    if is_word(toks, pos, "score") {
        let (rules, p) = parse_score_phase(toks, pos)?;
        assert(phase_model(Phase::Score(rules)) == PhaseM::Score(rules_model(rules@)));
        Ok((Phase::Score(rules), p))
    } else if is_word(toks, pos, "match") {
        let (rules, p) = parse_match_phase(toks, pos)?;
        assert(phase_model(Phase::Match(rules)) == PhaseM::Match(match_rules_model(rules@)));
        Ok((Phase::Match(rules), p))
    } else if is_word(toks, pos, "filter") {
        let (rule, p) = parse_filter_phase(toks, pos)?;
        Ok((Phase::Filter(rule), p))
    } else if is_word(toks, pos, "sort") {
        let (rule, p) = parse_sort_phase(toks, pos)?;
        Ok((Phase::Sort(rule), p))
    } else {
        Err(expected("phase", pos))
    }
}

/// `workflow := "workflow" ident "{" phase* "}"`
pub fn parse_workflow_def(toks: &Vec<Token>, pos: usize) -> (r: Parsed<Workflow>)
    ensures
        advanced(r, pos, toks.len() as nat),
        r is Err ==> parse_error_text(r->Err_0@),
        match r {
            Ok((w, q)) => sp_workflow(toks_model(toks@), pos as int) == Some((w.name@, phases_model(w.phases@), q as int)),
            Err(_) => sp_workflow(toks_model(toks@), pos as int) is None,
        },
{
    let ghost ts = toks_model(toks@);
    let p = expect_word(toks, pos, "workflow")?;
    let (name, p) = parse_ident(toks, p)?;
    let mut p = expect_punct(toks, p, Punct::LBrace, "'{'")?;
    let mut phases: Vec<Phase> = Vec::new();
    assert(phases_model(phases@) =~= Seq::<PhaseM>::empty());
    while !is_punct(toks, p, Punct::RBrace)
        invariant
            pos < p <= toks.len(),
            ts == toks_model(toks@),
            sp_phases(ts, Seq::empty(), pos + 3) == sp_phases(ts, phases_model(phases@), p as int),
        decreases toks.len() - p,
    {
        let (phase, q) = parse_phase(toks, p)?;
        let ghost before = phases@;
        let ghost pm = phase_model(phase);
        phases.push(phase);
        assert(phases_model(phases@) =~= phases_model(before).push(pm));
        p = q;
    }
    Ok((Workflow { name, phases }, p + 1))
}

/// `function_def := "function" ident "(" (ident ("," ident)*)? ")" ("=" expr | block)`
pub fn parse_function_def(toks: &Vec<Token>, pos: usize) -> (r: Parsed<FunctionDef>)
    ensures
        advanced(r, pos, toks.len() as nat),
        r is Err ==> parse_error_text(r->Err_0@),
        match r {
            Ok((f, q)) => sp_function(toks_model(toks@), pos as int) == Some((function_model(f), q as int)),
            Err(_) => sp_function(toks_model(toks@), pos as int) is None,
        },
{
    let ghost ts = toks_model(toks@);
    let p = expect_word(toks, pos, "function")?;
    let (name, p) = parse_ident(toks, p)?;
    let mut p = expect_punct(toks, p, Punct::LParen, "'('")?;
    let mut params: Vec<String> = Vec::new();
    if !is_punct(toks, p, Punct::RParen) {
        let (first, q) = parse_ident(toks, p)?;
        let ghost fw = first@;
        params.push(first);
        assert(ast::names_model(params@) =~= seq![fw]);
        p = q;
        while is_punct(toks, p, Punct::Comma)
            invariant
                pos < p <= toks.len(),
                ts == toks_model(toks@),
                sp_params(ts, pos + 3) == sp_params_rest(ts, ast::names_model(params@), p as int),
            decreases toks.len() - p,
        {
            let (param, q) = parse_ident(toks, p + 1)?;
            let ghost before = params@;
            let ghost pw = param@;
            params.push(param);
            assert(ast::names_model(params@) =~= ast::names_model(before).push(pw));
            p = q;
        }
    } else {
        assert(ast::names_model(params@) =~= Seq::<Seq<char>>::empty());
    }
    let p = expect_punct(toks, p, Punct::RParen, "')'")?;
    if is_punct(toks, p, Punct::Assign) {
        let (e, q) = parse_expr(toks, p + 1)?;
        Ok((FunctionDef { name, params, body: FunctionBody::Expression(e) }, q))
    } else {
        let (stmts, q) = parse_block(toks, p)?;
        Ok((FunctionDef { name, params, body: FunctionBody::Block(stmts) }, q))
    }
}

/// `program := (function_def | workflow)*`, up to the end of the tokens.
pub fn parse_program_tokens(toks: &Vec<Token>) -> (r: Result<Program, String>)
    ensures
        r is Err ==> parse_error_text(r->Err_0@),
        match r {
            Ok(prog) => sp_program(toks_model(toks@), Seq::empty(), Seq::empty(), 0)
                == Some((functions_model(prog.functions@), workflows_model(prog.workflows@))),
            Err(_) => sp_program(toks_model(toks@), Seq::empty(), Seq::empty(), 0) is None,
        },
{
    let ghost ts = toks_model(toks@);
    let mut functions: Vec<FunctionDef> = Vec::new();
    let mut workflows: Vec<Workflow> = Vec::new();
    let mut p: usize = 0;
    assert(functions_model(functions@) =~= Seq::<FunctionM>::empty());
    assert(workflows_model(workflows@) =~= Seq::<(Seq<char>, Seq<PhaseM>)>::empty());
    while p < toks.len()
        invariant
            p <= toks.len(),
            ts == toks_model(toks@),
            sp_program(ts, Seq::empty(), Seq::empty(), 0)
                == sp_program(ts, functions_model(functions@), workflows_model(workflows@), p as int),
        decreases toks.len() - p,
    {
        if is_word(toks, p, "function") {
            let (f, q) = parse_function_def(toks, p)?;
            let ghost before = functions@;
            let ghost fm = function_model(f);
            functions.push(f);
            assert(functions_model(functions@) =~= functions_model(before).push(fm));
            p = q;
        } else {
            let (w, q) = parse_workflow_def(toks, p)?;
            let ghost before = workflows@;
            let ghost wm = (w.name@, phases_model(w.phases@));
            workflows.push(w);
            assert(workflows_model(workflows@) =~= workflows_model(before).push(wm));
            p = q;
        }
    }
    Ok(Program { functions, workflows })
}

/// Parses a whole source text.
pub fn parse_program(source: &str) -> (r: Result<Program, String>)
    ensures
        r is Err ==> parse_error_text(r->Err_0@),
        match r {
            Ok(prog) => program_of(source@) == Some((functions_model(prog.functions@), workflows_model(prog.workflows@))),
            Err(_) => program_of(source@) is None,
        },
{
    let toks = tokenize(source)?;
    parse_program_tokens(&toks)
}

/// Parses a source text that holds exactly one expression.
pub fn parse_expression(source: &str) -> (r: Result<Expr, String>)
    ensures
        r is Err ==> parse_error_text(r->Err_0@),
        match r {
            Ok(e) => expression_of(source@) == Some(expr_model(e)),
            Err(_) => expression_of(source@) is None,
        },
{
    let toks = tokenize(source)?;
    let (e, p) = parse_expr(&toks, 0)?;
    if p != toks.len() {
        return Err(expected("end of expression", p));
    }
    Ok(e)
}

/// The productions of the grammar, each of which can be parsed on its own.
#[allow(non_camel_case_types)]
#[derive(Debug, Clone, Copy, PartialEq, Eq, Structural)]
pub enum Rule {
    program,
    function_def,
    workflow,
    phase,
    score_phase,
    match_phase,
    filter_phase,
    sort_phase,
    rule,
    match_rule,
    action,
    match_action,
    statement,
    block,
    expr,
    or_expr,
    and_expr,
    comp_expr,
    add_expr,
    mul_expr,
    unary_expr,
    primary_expr,
    function_call,
    list,
    ident,
    number,
    string,
    bool,
}

/// What a source text means as a program: its functions and workflows, or
/// nothing when it does not lex or parse.
pub open spec fn program_of(src: Seq<char>) -> Option<(Seq<FunctionM>, Seq<(Seq<char>, Seq<PhaseM>)>)> {
    match lex_from(src, 0) {
        Some(ts) => sp_program(ts, Seq::empty(), Seq::empty(), 0),
        None => None,
    }
}

/// What a source text means as one expression that takes all of it.
pub open spec fn expression_of(src: Seq<char>) -> Option<ExprM> {
    match lex_from(src, 0) {
        Some(ts) => match sp_expr(ts, 0) {
            Some((e, q)) => if q == ts.len() { Some(e) } else { None },
            None => None,
        },
        None => None,
    }
}

pub open spec fn end_m<T>(o: Option<(T, int)>) -> Option<int> {
    match o {
        Some((_, q)) => Some(q),
        None => None,
    }
}

/// How many tokens at the start of `ts` the production `which` takes.
pub open spec fn rule_end(which: Rule, ts: Seq<Tok>) -> Option<int> {
    match which {
        Rule::program => if sp_program(ts, Seq::empty(), Seq::empty(), 0) is Some { Some(ts.len() as int) } else { None },
        Rule::function_def => end_m(sp_function(ts, 0)),
        Rule::workflow => match sp_workflow(ts, 0) {
            Some((_, _, q)) => Some(q),
            None => None,
        },
        Rule::phase => end_m(sp_phase(ts, 0)),
        Rule::score_phase => if is_w(ts, 0, "score"@) && is_p(ts, 1, Punct::LBrace) { end_m(sp_rules(ts, Seq::empty(), 2)) } else { None },
        Rule::match_phase => if is_w(ts, 0, "match"@) && is_p(ts, 1, Punct::LBrace) { end_m(sp_match_rules(ts, Seq::empty(), 2)) } else { None },
        Rule::filter_phase => end_m(sp_filter(ts, 0)),
        Rule::sort_phase => end_m(sp_sort(ts, 0)),
        Rule::rule => end_m(sp_rule(ts, 0)),
        Rule::match_rule => end_m(sp_match_rule(ts, 0)),
        Rule::action => end_m(sp_action(ts, 0)),
        Rule::match_action => end_m(sp_match_action(ts, 0)),
        Rule::statement => end_m(sp_statement(ts, 0)),
        Rule::block => end_m(sp_block(ts, 0)),
        Rule::expr => end_m(sp_expr(ts, 0)),
        Rule::or_expr => end_m(sp_or(ts, 0)),
        Rule::and_expr => end_m(sp_and(ts, 0)),
        Rule::comp_expr => end_m(sp_comp(ts, 0)),
        Rule::add_expr => end_m(sp_add(ts, 0)),
        Rule::mul_expr => end_m(sp_mul(ts, 0)),
        Rule::unary_expr => end_m(sp_unary(ts, 0)),
        Rule::primary_expr => end_m(sp_primary(ts, 0)),
        Rule::function_call => if is_p(ts, 1, Punct::LParen) && ts.len() > 0 && ts[0] is Word { end_m(sp_primary(ts, 0)) } else { None },
        Rule::list => if is_p(ts, 0, Punct::LBracket) { end_m(sp_primary(ts, 0)) } else { None },
        Rule::ident => if ts.len() > 0 && ts[0] is Word { Some(1) } else { None },
        Rule::number => if ts.len() > 0 && ts[0] is Int { Some(1) } else { None },
        Rule::string => if ts.len() > 0 && ts[0] is Text { Some(1) } else { None },
        Rule::bool => if is_w(ts, 0, "true"@) || is_w(ts, 0, "false"@) { Some(1) } else { None },
    }
}

/// The parser of the rule language.
pub struct WorkflowParser;

fn end_of<T>(r: Parsed<T>) -> (out: Result<usize, String>)
    ensures
        match r {
            Ok((_, p)) => out == Ok::<usize, String>(p),
            Err(e) => out == Err::<usize, String>(e),
        },
{
    match r {
        Ok((_, p)) => Ok(p),
        Err(e) => Err(e),
    }
}

impl WorkflowParser {
    /// Parses a prefix of `input` as `rule` and gives the number of tokens it
    /// takes; `program` must take the whole input.
    #[verifier::rlimit(60)]
    pub fn parse(which: Rule, input: &str) -> (r: Result<usize, String>)
        ensures
            r is Err ==> parse_error_text(r->Err_0@),
            match r {
                Ok(n) => lex_from(input@, 0) matches Some(ts) && rule_end(which, ts) == Some(n as int),
                Err(_) => lex_from(input@, 0) matches Some(ts) ==> rule_end(which, ts) is None,
            },
    {
        let toks = tokenize(input)?;
        let t = &toks;
        match which {
            Rule::program => {
                parse_program_tokens(t)?;
                Ok(toks.len())
            },
            Rule::function_def => end_of(parse_function_def(t, 0)),
            Rule::workflow => end_of(parse_workflow_def(t, 0)),
            Rule::phase => end_of(parse_phase(t, 0)),
            Rule::score_phase => end_of(parse_score_phase(t, 0)),
            Rule::match_phase => end_of(parse_match_phase(t, 0)),
            Rule::filter_phase => end_of(parse_filter_phase(t, 0)),
            Rule::sort_phase => end_of(parse_sort_phase(t, 0)),
            Rule::rule => end_of(parse_rule(t, 0)),
            Rule::match_rule => end_of(parse_match_rule(t, 0)),
            Rule::action => end_of(parse_action(t, 0)),
            Rule::match_action => end_of(parse_match_action(t, 0)),
            Rule::statement => end_of(parse_statement(t, 0)),
            Rule::block => end_of(parse_block(t, 0)),
            Rule::expr => end_of(parse_expr(t, 0)),
            Rule::or_expr => end_of(parse_or(t, 0)),
            Rule::and_expr => end_of(parse_and(t, 0)),
            Rule::comp_expr => end_of(parse_comp(t, 0)),
            Rule::add_expr => end_of(parse_add(t, 0)),
            Rule::mul_expr => end_of(parse_mul(t, 0)),
            Rule::unary_expr => end_of(parse_unary(t, 0)),
            Rule::primary_expr => end_of(parse_primary(t, 0)),
            Rule::function_call => {
                if is_punct(t, 1, Punct::LParen) && matches!(toks[0], Token::Word(_)) {
                    end_of(parse_primary(t, 0))
                } else {
                    Err(expected("function call", 0))
                }
            },
            Rule::list => {
                if is_punct(t, 0, Punct::LBracket) {
                    end_of(parse_primary(t, 0))
                } else {
                    Err(expected("list", 0))
                }
            },
            Rule::ident => end_of(parse_ident(t, 0)),
            Rule::number => if toks.len() > 0 && matches!(toks[0], Token::Int(_)) { Ok(1) } else { Err(expected("number", 0)) },
            Rule::string => if toks.len() > 0 && matches!(toks[0], Token::Text(_)) { Ok(1) } else { Err(expected("string", 0)) },
            Rule::bool => if is_word(t, 0, "true") || is_word(t, 0, "false") { Ok(1) } else { Err(expected("boolean", 0)) },
        }
    }
}

} // verus!
