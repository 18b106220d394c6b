//! The abstract syntax tree that the parser hands to the IR generator.
//!
//! Source positions are carried as half-open index ranges into the source
//! text, so that diagnostics outside the core can point at the right spot.

use vstd::prelude::*;

verus! {

/// A half-open range of character indices into the source text.
#[derive(Debug, Clone, Copy, PartialEq, Eq, Structural)]
pub struct Span {
    pub start: usize,
    pub end: usize,
}

#[derive(Debug)]
pub struct AST {
    pub items: Vec<Item>,
}

impl AST {
    pub fn new() -> (r: AST)
        ensures
            r.items@.len() == 0,
    {
        AST { items: Vec::new() }
    }

    pub fn add_item(&mut self, item: Item)
        ensures
            final(self).items@ == old(self).items@.push(item),
    {
        self.items.push(item);
    }
}

#[derive(Debug)]
pub enum Item {
    Function {
        name: String,
        args: Option<Vec<(String, SemanticType)>>,
        body: Vec<Statement>,
        ret_type: SemanticType,
        decl_range: Span,
    },
}

#[derive(Debug)]
pub enum Statement {
    Declare { var: String, expr: Expression, var_range: Span },
    Assign { var: String, expr: Expression, var_range: Span },
    Return(Expression),
    Expr(Expression),
}

#[derive(Debug)]
pub struct Expression {
    pub expr_type: ExprType,
    pub range: Span,
}

#[derive(Debug)]
pub enum ExprType {
    Const(i64),
    Character(char),
    Variable(String),
    Addition(Box<Expression>, Box<Expression>),
    Subtraction(Box<Expression>, Box<Expression>),
    Multiplication(Box<Expression>, Box<Expression>),
    Division(Box<Expression>, Box<Expression>),
    FnCall(String, Vec<Expression>),
}

#[derive(Debug, Clone)]
pub enum SemanticType {
    Unit,
    I64,
    Char,
    UserType(String),
}

impl SemanticType {
    /// The name a type prints as, and the inverse of `parse`.
    pub open spec fn name_spec(self) -> Seq<char> {
        match self {
            SemanticType::Unit => "()"@,
            SemanticType::I64 => "i64"@,
            SemanticType::Char => "char"@,
            SemanticType::UserType(name) => name@,
        }
    }

    /// The name this type prints as.
    pub fn name(&self) -> (r: String)
        ensures
            r@ == self.name_spec(),
    {
        match self {
            SemanticType::Unit => ("()").to_owned(),
            SemanticType::I64 => ("i64").to_owned(),
            SemanticType::Char => ("char").to_owned(),
            SemanticType::UserType(name) => name.clone(),
        }
    }

    /// Reads a type from its written name; every unknown name is a user type.
    pub fn parse(string: &str) -> (r: SemanticType)
        ensures
            string@ == "()"@ ==> r is Unit,
            string@ != "()"@ && string@ == "i64"@ ==> r is I64,
            string@ != "()"@ && string@ != "i64"@ && string@ == "char"@ ==> r is Char,
            (string@ != "()"@ && string@ != "i64"@ && string@ != "char"@) ==> (r matches
                SemanticType::UserType(name) && name@ == string@),
    {
        let word: String = string.to_owned();
        if word == ("()").to_owned() {
            SemanticType::Unit
        } else if word == ("i64").to_owned() {
            SemanticType::I64
        } else if word == ("char").to_owned() {
            SemanticType::Char
        } else {
            SemanticType::UserType(word)
        }
    }
}

} // verus!
