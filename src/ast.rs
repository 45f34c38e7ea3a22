//! Syntax tree of the rule language and the runtime values it computes with.

use vstd::prelude::*;

verus! {

broadcast use vstd::std_specs::vec::axiom_vec_index_decreases, vstd::std_specs::vec::axiom_vec_decreases_to_view, vstd::seq::axiom_seq_index_decreases;

/// A parsed source file: user functions first, then workflows.
#[derive(Debug)]
pub struct Program {
    pub functions: Vec<FunctionDef>,
    pub workflows: Vec<Workflow>,
}

#[derive(Debug)]
pub struct FunctionDef {
    pub name: String,
    pub params: Vec<String>,
    pub body: FunctionBody,
}

#[derive(Debug)]
pub enum FunctionBody {
    Expression(Expr),
    Block(Vec<Statement>),
}

#[derive(Debug)]
pub enum Statement {
    Let { name: String, value: Expr },
    Assign { name: String, value: Expr },
    If { condition: Expr, then_body: Vec<Statement>, else_body: Option<Vec<Statement>> },
    Return(Expr),
    Expression(Expr),
}

#[derive(Debug)]
pub struct Workflow {
    pub name: String,
    pub phases: Vec<Phase>,
}

#[derive(Debug)]
pub enum Phase {
    Score(Vec<Rule>),
    Match(Vec<MatchRule>),
    Filter(FilterRule),
    Sort(SortRule),
}

#[derive(Debug)]
pub struct Rule {
    pub condition: Expr,
    pub action: Action,
}

#[derive(Debug)]
pub struct MatchRule {
    pub condition: Expr,
    pub action: MatchAction,
}

#[derive(Debug)]
pub enum Action {
    AssignScore(Expr),
    Log(String),
    Assign(String),
}

#[derive(Debug, Clone)]
pub enum MatchAction {
    AssignTo(String),
}

#[derive(Debug)]
pub struct FilterRule {
    pub condition: Expr,
}

#[derive(Debug)]
pub struct SortRule {
    pub key: Expr,
    pub order: SortOrder,
}

#[derive(Debug, Clone, Copy, PartialEq, Eq, Structural)]
pub enum SortOrder {
    Asc,
    Desc,
}

#[derive(Debug)]
pub enum Expr {
    BinaryOp { left: Box<Expr>, op: BinaryOperator, right: Box<Expr> },
    UnaryOp { op: UnaryOperator, expr: Box<Expr> },
    FunctionCall { name: String, args: Vec<Expr> },
    MemberAccess { object: String, property: String },
    List(Vec<Expr>),
    Ident(String),
    Number(i64),
    String(String),
    Bool(bool),
}

#[derive(Debug, Clone, Copy, PartialEq, Eq, Structural)]
pub enum BinaryOperator {
    Eq,
    Neq,
    In,
    Gt,
    Lt,
    Ge,
    Le,
    And,
    Or,
    Add,
    Sub,
    Mul,
    Div,
}

#[derive(Debug, Clone, Copy, PartialEq, Eq, Structural)]
pub enum UnaryOperator {
    Neg,
    Not,
}

/// The built-in functions; two values of this kind are equal when they name
/// the same function.
#[derive(Debug, Clone, Copy, PartialEq, Eq, Structural)]
pub enum Builtin {
    Len,
    Max,
    Min,
    Contains,
}

/// A runtime value.
#[derive(Debug)]
pub enum Value {
    Number(i64),
    String(String),
    Bool(bool),
    List(Vec<Value>),
    Null,
    Dict(ValueMap),
    BuiltinFunction(Builtin),
    UserFunction(FunctionDef),
}

/// String-keyed entries in insertion order, each key at most once.
#[derive(Debug)]
pub struct ValueMap {
    pub entries: Vec<(String, Value)>,
}

/// What a value is, as far as the language can observe it: strings by their
/// characters, user functions by name and parameter names.
pub enum Val {
    Number(i64),
    Str(Seq<char>),
    Bool(bool),
    List(Seq<Val>),
    Null,
    Dict(Seq<(Seq<char>, Val)>),
    Builtin(Builtin),
    UserFn(Seq<char>, Seq<Seq<char>>),
}

pub open spec fn names_model(v: Seq<String>) -> Seq<Seq<char>> {
    Seq::new(v.len(), |i: int| v[i]@)
}

pub open spec fn model(v: Value) -> Val
    decreases v, 0nat,
{
    match v {
        Value::Number(n) => Val::Number(n),
        Value::String(s) => Val::Str(s@),
        Value::Bool(b) => Val::Bool(b),
        Value::List(l) => Val::List(list_model(l@, l.len() as nat)),
        Value::Null => Val::Null,
        Value::Dict(m) => Val::Dict(entries_model(m.entries@, m.entries.len() as nat)),
        Value::BuiltinFunction(b) => Val::Builtin(b),
        Value::UserFunction(f) => Val::UserFn(f.name@, names_model(f.params@)),
    }
}

/// The models of the first `n` items of `l`.
pub open spec fn list_model(l: Seq<Value>, n: nat) -> Seq<Val>
    decreases l, n,
{
    if n == 0 || n > l.len() {
        Seq::empty()
    } else {
        list_model(l, (n - 1) as nat).push(model(l[n - 1]))
    }
}

/// The models of the first `n` entries of `m`.
pub open spec fn entries_model(m: Seq<(String, Value)>, n: nat) -> Seq<(Seq<char>, Val)>
    decreases m, n,
{
    if n == 0 || n > m.len() {
        Seq::empty()
    } else {
        entries_model(m, (n - 1) as nat).push((m[n - 1].0@, model(m[n - 1].1)))
    }
}

pub open spec fn keys_unique(m: Seq<(String, Value)>) -> bool {
    forall|i: int, j: int| 0 <= i < j < m.len() ==> m[i].0@ != m[j].0@
}

/// Index of the entry whose key is `k`, if any.
pub open spec fn find_key(m: Seq<(String, Value)>, k: Seq<char>) -> Option<int> {
    if exists|i: int| 0 <= i < m.len() && m[i].0@ == k {
        Some(choose|i: int| 0 <= i < m.len() && m[i].0@ == k)
    } else {
        None
    }
}

pub proof fn lemma_list_model(l: Seq<Value>, n: nat)
    requires
        n <= l.len(),
    ensures
        list_model(l, n) =~= Seq::new(n, |j: int| model(l[j])),
    decreases n,
{
    if n > 0 {
        lemma_list_model(l, (n - 1) as nat);
    }
}

pub proof fn lemma_entries_model(m: Seq<(String, Value)>, n: nat)
    requires
        n <= m.len(),
    ensures
        entries_model(m, n) =~= Seq::new(n, |j: int| (m[j].0@, model(m[j].1))),
    decreases n,
{
    if n > 0 {
        lemma_entries_model(m, (n - 1) as nat);
    }
}

pub fn copy_names(v: &Vec<String>) -> (r: Vec<String>)
    ensures
        names_model(r@) == names_model(v@),
{
    let mut r: Vec<String> = Vec::new();
    let mut i: usize = 0;
    while i < v.len()
        invariant
            i <= v.len(),
            r@.len() == i,
            forall|j: int| 0 <= j < i ==> r@[j]@ == v@[j]@,
        decreases v.len() - i,
    {
        r.push(v[i].clone());
        i = i + 1;
    }
    assert(names_model(r@) =~= names_model(v@));
    r
}

pub fn copy_expr(e: &Expr) -> (r: Expr)
    decreases e,
{
    match e {
        Expr::BinaryOp { left, op, right } => Expr::BinaryOp {
            left: Box::new(copy_expr(left)),
            op: *op,
            right: Box::new(copy_expr(right)),
        },
        Expr::UnaryOp { op, expr } => Expr::UnaryOp { op: *op, expr: Box::new(copy_expr(expr)) },
        Expr::FunctionCall { name, args } => Expr::FunctionCall {
            name: name.clone(),
            args: copy_exprs(args),
        },
        Expr::MemberAccess { object, property } => Expr::MemberAccess {
            object: object.clone(),
            property: property.clone(),
        },
        Expr::List(items) => Expr::List(copy_exprs(items)),
        Expr::Ident(name) => Expr::Ident(name.clone()),
        Expr::Number(n) => Expr::Number(*n),
        Expr::String(s) => Expr::String(s.clone()),
        Expr::Bool(b) => Expr::Bool(*b),
    }
}

pub fn copy_exprs(v: &Vec<Expr>) -> (r: Vec<Expr>)
    decreases v,
{
    let mut r: Vec<Expr> = Vec::new();
    let mut i: usize = 0;
    while i < v.len()
        invariant
            i <= v.len(),
        decreases v.len() - i,
    {
        r.push(copy_expr(&v[i]));
        i = i + 1;
    }
    r
}

pub fn copy_statement(st: &Statement) -> (r: Statement)
    decreases st,
{
    match st {
        Statement::Let { name, value } => Statement::Let { name: name.clone(), value: copy_expr(value) },
        Statement::Assign { name, value } => Statement::Assign {
            name: name.clone(),
            value: copy_expr(value),
        },
        Statement::If { condition, then_body, else_body } => {
            let else_copy = match else_body {
                Some(b) => Some(copy_statements(b)),
                None => None,
            };
            Statement::If {
                condition: copy_expr(condition),
                then_body: copy_statements(then_body),
                else_body: else_copy,
            }
        },
        Statement::Return(e) => Statement::Return(copy_expr(e)),
        Statement::Expression(e) => Statement::Expression(copy_expr(e)),
    }
}

pub fn copy_statements(v: &Vec<Statement>) -> (r: Vec<Statement>)
    decreases v,
{
    let mut r: Vec<Statement> = Vec::new();
    let mut i: usize = 0;
    while i < v.len()
        invariant
            i <= v.len(),
        decreases v.len() - i,
    {
        r.push(copy_statement(&v[i]));
        i = i + 1;
    }
    r
}

pub fn copy_function(f: &FunctionDef) -> (r: FunctionDef)
    ensures
        r.name@ == f.name@,
        names_model(r.params@) == names_model(f.params@),
{
    let body = match &f.body {
        FunctionBody::Expression(e) => FunctionBody::Expression(copy_expr(e)),
        FunctionBody::Block(b) => FunctionBody::Block(copy_statements(b)),
    };
    FunctionDef { name: f.name.clone(), params: copy_names(&f.params), body }
}

/// A copy of `v` that the language cannot tell apart from it.
pub fn copy_value(v: &Value) -> (r: Value)
    ensures
        model(r) == model(*v),
    decreases v,
{
    match v {
        Value::Number(n) => Value::Number(*n),
        Value::String(s) => Value::String(s.clone()),
        Value::Bool(b) => Value::Bool(*b),
        Value::List(l) => Value::List(copy_values(l)),
        Value::Null => Value::Null,
        Value::Dict(m) => Value::Dict(ValueMap { entries: copy_entries(&m.entries) }),
        Value::BuiltinFunction(b) => Value::BuiltinFunction(*b),
        Value::UserFunction(f) => Value::UserFunction(copy_function(f)),
    }
}

pub fn copy_values(v: &Vec<Value>) -> (r: Vec<Value>)
    ensures
        r.len() == v.len(),
        list_model(r@, r.len() as nat) == list_model(v@, v.len() as nat),
    decreases v,
{
    let mut r: Vec<Value> = Vec::new();
    let mut i: usize = 0;
    while i < v.len()
        invariant
            i <= v.len(),
            r@.len() == i,
            forall|j: int| 0 <= j < i ==> model(r@[j]) == model(v@[j]),
        decreases v.len() - i,
    {
        r.push(copy_value(&v[i]));
        i = i + 1;
    }
    proof {
        lemma_list_model(r@, r.len() as nat);
        lemma_list_model(v@, v.len() as nat);
    }
    r
}

pub fn copy_entries(v: &Vec<(String, Value)>) -> (r: Vec<(String, Value)>)
    ensures
        r.len() == v.len(),
        entries_model(r@, r.len() as nat) == entries_model(v@, v.len() as nat),
        forall|j: int| 0 <= j < v.len() ==> r@[j].0@ == v@[j].0@,
    decreases v,
{
    let mut r: Vec<(String, Value)> = Vec::new();
    let mut i: usize = 0;
    while i < v.len()
        invariant
            i <= v.len(),
            r@.len() == i,
            forall|j: int| 0 <= j < i ==> r@[j].0@ == v@[j].0@ && model(r@[j].1) == model(v@[j].1),
        decreases v.len() - i,
    {
        r.push((v[i].0.clone(), copy_value(&v[i].1)));
        i = i + 1;
    }
    proof {
        lemma_entries_model(r@, r.len() as nat);
        lemma_entries_model(v@, v.len() as nat);
    }
    r
}

impl Clone for ValueMap {
    fn clone(&self) -> Self {
        ValueMap { entries: copy_entries(&self.entries) }
    }
}

impl Clone for FunctionBody {
    fn clone(&self) -> Self {
        match self {
            FunctionBody::Expression(e) => FunctionBody::Expression(copy_expr(e)),
            FunctionBody::Block(b) => FunctionBody::Block(copy_statements(b)),
        }
    }
}

impl Clone for Action {
    fn clone(&self) -> Self {
        match self {
            Action::AssignScore(e) => Action::AssignScore(copy_expr(e)),
            Action::Log(s) => Action::Log(s.clone()),
            Action::Assign(s) => Action::Assign(s.clone()),
        }
    }
}

impl Clone for Rule {
    fn clone(&self) -> Self {
        Rule { condition: copy_expr(&self.condition), action: self.action.clone() }
    }
}

impl Clone for MatchRule {
    fn clone(&self) -> Self {
        MatchRule { condition: copy_expr(&self.condition), action: self.action.clone() }
    }
}

impl Clone for FilterRule {
    fn clone(&self) -> Self {
        FilterRule { condition: copy_expr(&self.condition) }
    }
}

impl Clone for SortRule {
    fn clone(&self) -> Self {
        SortRule { key: copy_expr(&self.key), order: self.order }
    }
}

impl Clone for Phase {
    fn clone(&self) -> Self {
        match self {
            Phase::Score(rules) => Phase::Score(rules.clone()),
            Phase::Match(rules) => Phase::Match(rules.clone()),
            Phase::Filter(f) => Phase::Filter(f.clone()),
            Phase::Sort(r) => Phase::Sort(r.clone()),
        }
    }
}

impl Clone for Workflow {
    fn clone(&self) -> Self {
        Workflow { name: self.name.clone(), phases: self.phases.clone() }
    }
}

impl Clone for Program {
    fn clone(&self) -> Self {
        Program { functions: self.functions.clone(), workflows: self.workflows.clone() }
    }
}

impl Clone for Expr {
    fn clone(&self) -> Self {
        copy_expr(self)
    }
}

impl Clone for Statement {
    fn clone(&self) -> Self {
        copy_statement(self)
    }
}

impl Clone for FunctionDef {
    fn clone(&self) -> Self {
        copy_function(self)
    }
}

impl Clone for Value {
    fn clone(&self) -> Self {
        copy_value(self)
    }
}

} // verus!
