//! Lowering the validated syntax tree into linear IR: one basic block per
//! function, with virtual registers handed out monotonically.

use vstd::prelude::*;

use crate::analyze::ast::{Expression, ExprType, Item as AstItem, Statement, AST};
use crate::ir::{BasicBlock, Item, Op, SourceVal, VirtualReg, IR};

verus! {

/// How many fresh virtual registers lowering an expression can consume:
/// one per node.
pub open spec fn expr_size(e: Expression) -> nat
    decreases e,
{
    expr_type_size(e.expr_type)
}

pub open spec fn expr_type_size(e: ExprType) -> nat
    decreases e,
{
    match e {
        ExprType::Const(_) => 1,
        ExprType::Character(_) => 1,
        ExprType::Variable(_) => 1,
        ExprType::Addition(e1, e2) => 1 + expr_size(*e1) + expr_size(*e2),
        ExprType::Subtraction(e1, e2) => 1 + expr_size(*e1) + expr_size(*e2),
        ExprType::Multiplication(e1, e2) => 3 + expr_size(*e1) + expr_size(*e2),
        ExprType::Division(e1, e2) => 1 + expr_size(*e1) + expr_size(*e2),
        ExprType::FnCall(_, _) => 1,
    }
}

/// How many fresh virtual registers lowering a statement list can consume.
pub open spec fn stmts_size(ss: Seq<Statement>) -> nat
    decreases ss.len(),
{
    if ss.len() == 0 {
        0
    } else {
        stmt_size(ss.last()) + stmts_size(ss.drop_last())
    }
}

pub open spec fn stmt_size(s: Statement) -> nat {
    match s {
        Statement::Declare { var: _, expr, var_range: _ } => 1 + expr_size(expr),
        Statement::Assign { var: _, expr, var_range: _ } => 1 + expr_size(expr),
        Statement::Return(expr) => expr_size(expr),
        Statement::Expr(expr) => expr_size(expr),
    }
}

impl IR {
    /// Lowers every function of the tree; item order and names carry over.
    pub fn generate(ast: AST) -> (ir: IR)
        requires
            forall|it: int|
                0 <= it < ast.items@.len() ==> match #[trigger] ast.items@[it] {
                    AstItem::Function { body, .. } => stmts_size(body@) <= u32::MAX,
                },
        ensures
            ir.items@.len() == ast.items@.len(),
            forall|it: int|
                0 <= it < ir.items@.len() ==> match (#[trigger] ir.items@[it], ast.items@[it]) {
                    (
                        Item::Function { name, bb: _ },
                        AstItem::Function { name: ast_name, .. },
                    ) => name@ == ast_name@,
                },
    {
        let mut items: Vec<Item> = Vec::new();
        let n = ast.items.len();
        let mut it: usize = 0;
        while it < n
            invariant
                n == ast.items@.len(),
                0 <= it <= n,
                items@.len() == it,
                forall|k: int|
                    0 <= k < ast.items@.len() ==> match #[trigger] ast.items@[k] {
                        AstItem::Function { body, .. } => stmts_size(body@) <= u32::MAX,
                    },
                forall|k: int|
                    0 <= k < it ==> match (#[trigger] items@[k], ast.items@[k]) {
                        (
                            Item::Function { name, bb: _ },
                            AstItem::Function { name: ast_name, .. },
                        ) => name@ == ast_name@,
                    },
            decreases n - it,
        {
            let (name, body) = match &ast.items[it] {
                AstItem::Function { name, body, .. } => (name.clone(), body),
            };
            let bb = BlockBuilder::new().build(body);
            items.push(Item::Function { name, bb });
            it += 1;
        }
        IR { items }
    }
}

/// Builds one basic block, mapping source variables to virtual registers.
pub struct BlockBuilder {
    vregs: Vec<(String, VirtualReg)>,
    vreg_counter: u32,
    ops: Vec<Op>,
}

impl BlockBuilder {
    pub fn new() -> (r: BlockBuilder)
        ensures
            r.counter_spec() == 0,
            r.ops_spec().len() == 0,
    {
        BlockBuilder { vregs: Vec::new(), vreg_counter: 0, ops: Vec::new() }
    }

    pub closed spec fn counter_spec(self) -> u32 {
        self.vreg_counter
    }

    pub closed spec fn ops_spec(self) -> Seq<Op> {
        self.ops@
    }

    /// Lowers a statement list into a basic block. Argument passing is not
    /// modelled by this back end: a call lowers to its `Call` operation
    /// alone, and a repeated declaration rebinds like an assignment.
    pub fn build(self, block: &Vec<Statement>) -> (bb: BasicBlock)
        requires
            self.counter_spec() + stmts_size(block@) <= u32::MAX,
        ensures
            true,
    {
        let mut builder = self;
        let n = block.len();
        let ghost all = block@;
        proof {
            assert(block@.skip(0) =~= block@);
        }
        let mut s: usize = 0;
        while s < n
            invariant
                n == block@.len(),
                0 <= s <= n,
                all == block@,
                builder.counter_spec() + stmts_size(block@.skip(s as int)) <= u32::MAX,
            decreases n - s,
        {
            proof {
                lemma_stmts_size_skip(all, s as int);
            }
            let stmt = &block[s];
            match stmt {
                Statement::Declare { var, expr, var_range: _ } => {
                    let dest = builder.get_or_insert_vreg(var);
                    let src = builder.unroll_expr(expr, Some(dest));
                    builder.ops.push(Op::Assign { src, dest });
                },
                Statement::Assign { var, expr, var_range: _ } => {
                    let dest = builder.get_or_insert_vreg(var);
                    let src = builder.unroll_expr(expr, Some(dest));
                    builder.ops.push(Op::Assign { src, dest });
                },
                Statement::Return(expr) => {
                    let value = builder.unroll_expr(expr, None);
                    builder.ops.push(Op::Return { value });
                },
                Statement::Expr(expr) => {
                    let _value = builder.unroll_expr(expr, None);
                },
            }
            s += 1;
        }
        BasicBlock { ops: builder.ops }
    }

    /// Lowers one expression, pushing the operations that compute it, and
    /// returns the value holding the result.
    fn unroll_expr(&mut self, expr: &Expression, dest: Option<VirtualReg>) -> (r: SourceVal)
        requires
            old(self).counter_spec() + expr_size(*expr) <= u32::MAX,
        ensures
            final(self).counter_spec() >= old(self).counter_spec(),
            final(self).counter_spec() <= old(self).counter_spec() + expr_size(*expr),
        decreases expr,
    {
        match &expr.expr_type {
            ExprType::Const(num) => SourceVal::Immediate(*num),
            ExprType::Character(c) => SourceVal::Immediate((*c as u32) as i64),
            ExprType::Variable(var) => SourceVal::VReg(self.get_or_insert_vreg(var)),
            ExprType::Addition(expr1, expr2) => {
                let a = self.unroll_expr(expr1, None);
                let b = self.unroll_expr(expr2, None);
                let dest = match dest {
                    Some(d) => d,
                    None => self.get_vreg(),
                };
                self.ops.push(Op::Add { a, b, dest });
                SourceVal::VReg(dest)
            },
            ExprType::Subtraction(expr1, expr2) => {
                let a = self.unroll_expr(expr1, None);
                let b = self.unroll_expr(expr2, None);
                let dest = match dest {
                    Some(d) => d,
                    None => self.get_vreg(),
                };
                self.ops.push(Op::Subtract { a, b, dest });
                SourceVal::VReg(dest)
            },
            ExprType::Multiplication(expr1, expr2) => {
                let a = self.unroll_expr(expr1, None);
                let a = self.src_to_vreg(a);
                let b = self.unroll_expr(expr2, None);
                let b = self.src_to_vreg(b);
                let dest = match dest {
                    Some(d) => d,
                    None => self.get_vreg(),
                };
                self.ops.push(Op::Multiply { a, b, dest });
                SourceVal::VReg(dest)
            },
            ExprType::Division(expr1, expr2) => {
                let a = self.unroll_expr(expr1, None);
                let b = self.unroll_expr(expr2, None);
                let dest = match dest {
                    Some(d) => d,
                    None => self.get_vreg(),
                };
                self.ops.push(Op::Divide { a, b, dest });
                SourceVal::VReg(dest)
            },
            ExprType::FnCall(function, _args) => {
                let dest = match dest {
                    Some(d) => d,
                    None => self.get_vreg(),
                };
                self.ops.push(Op::Call { function: function.clone(), dest: Some(dest) });
                SourceVal::VReg(dest)
            },
        }
    }

    /// The virtual register bound to a source variable, or a fresh one.
    fn get_or_insert_vreg(&mut self, var: &String) -> (r: VirtualReg)
        requires
            old(self).counter_spec() < u32::MAX,
        ensures
            final(self).counter_spec() >= old(self).counter_spec(),
            final(self).counter_spec() <= old(self).counter_spec() + 1,
            final(self).ops_spec() == old(self).ops_spec(),
    {
        let n = self.vregs.len();
        let mut k: usize = 0;
        while k < n
            invariant
                n == self.vregs@.len(),
                0 <= k <= n,
            decreases n - k,
        {
            if self.vregs[k].0 == *var {
                return self.vregs[k].1;
            }
            k += 1;
        }
        let vreg = self.get_vreg();
        self.vregs.push((var.clone(), vreg));
        vreg
    }

    /// A fresh virtual register.
    fn get_vreg(&mut self) -> (r: VirtualReg)
        requires
            old(self).counter_spec() < u32::MAX,
        ensures
            r.0 == old(self).counter_spec(),
            final(self).counter_spec() == old(self).counter_spec() + 1,
            final(self).ops_spec() == old(self).ops_spec(),
    {
        let vreg = VirtualReg(self.vreg_counter);
        self.vreg_counter = self.vreg_counter + 1;
        vreg
    }

    /// Forces a source value into a register, materializing an immediate
    /// through a fresh assignment.
    fn src_to_vreg(&mut self, src: SourceVal) -> (r: VirtualReg)
        requires
            old(self).counter_spec() < u32::MAX,
        ensures
            final(self).counter_spec() >= old(self).counter_spec(),
            final(self).counter_spec() <= old(self).counter_spec() + 1,
    {
        match src {
            SourceVal::Immediate(_) => {
                let dest = self.get_vreg();
                self.ops.push(Op::Assign { src, dest });
                dest
            },
            SourceVal::VReg(vreg) => vreg,
        }
    }
}

/// Splitting off the head statement splits its size off the total.
proof fn lemma_stmts_size_skip(ss: Seq<Statement>, s: int)
    requires
        0 <= s < ss.len(),
    ensures
        stmts_size(ss.skip(s)) == stmt_size(ss[s]) + stmts_size(ss.skip(s + 1)),
    decreases ss.len(),
{
    let tail = ss.skip(s);
    assert(tail.len() == ss.len() - s);
    assert(tail.last() == ss.last());
    if s == ss.len() - 1 {
        assert(tail.drop_last() =~= ss.skip(s + 1));
        assert(ss.skip(s + 1).len() == 0);
    } else {
        assert(tail.drop_last() =~= ss.drop_last().skip(s));
        assert(ss.skip(s + 1).last() == ss.last());
        assert(ss.skip(s + 1).drop_last() =~= ss.drop_last().skip(s + 1));
        lemma_stmts_size_skip(ss.drop_last(), s);
        assert(ss.drop_last()[s] == ss[s]);
    }
}

} // verus!
