//! The resolver: one pass over the syntax tree that files, for every variable
//! reference, the depth of the scope that declares it.

use vstd::prelude::*;
use std::collections::HashMap;
use crate::environment::EnvStack;
use crate::parser::{
    expr_views, lemma_block_view, lemma_call_view, lemma_function_view, name_views, stmt_views,
    Expr, ExprView, Stmt, StmtFunction, StmtView,
};
use crate::resolution::{
    declared, entered, initialized, left_scope, resolve_expr, resolve_exprs, resolve_stmt,
    resolve_stmts, start, used, with_params, Resolution,
};
use crate::token::TokenType;

verus! {

broadcast use vstd::std_specs::hash::group_hash_axioms;

/// The resolver's state: the scopes around the current place, the table filed
/// so far, and the warnings.
pub struct Resolver {
    env: EnvStack<bool>,
    locals: HashMap<usize, usize>,
    warnings: Vec<usize>,
}

impl View for Resolver {
    type V = Resolution;

    closed spec fn view(&self) -> Resolution {
        Resolution { scopes: self.env@, locals: self.locals@, warnings: self.warnings@ }
    }
}

impl Resolver {
    /// A resolver at the top level of a program, with nothing filed.
    pub fn new() -> (resolver: Resolver)
        ensures
            resolver@ == start(),
    {
        let resolver = Resolver {
            env: EnvStack::default(),
            locals: HashMap::new(),
            warnings: Vec::new(),
        };
        assert(resolver@.locals =~= Map::<usize, usize>::empty());
        resolver
    }

    /// The table filed so far: from the identity of an expression to the
    /// depth of the scope that declares its variable.
    pub fn locals(&self) -> (table: &HashMap<usize, usize>)
        ensures
            table@ == self@.locals,
    {
        &self.locals
    }

    /// The identities of the expressions found to use a variable inside its
    /// own initializer.
    pub fn warnings(&self) -> (ids: &Vec<usize>)
        ensures
            ids@ == self@.warnings,
    {
        &self.warnings
    }

    /// Ends the resolution and hands out the table.
    pub fn into_locals(self) -> (table: HashMap<usize, usize>)
        ensures
            table@ == self@.locals,
    {
        self.locals
    }

    fn enter(&mut self)
        ensures
            final(self)@ == entered(old(self)@),
    {
        self.env.push_default();
    }

    fn leave(&mut self)
        ensures
            final(self)@ == left_scope(old(self)@),
    {
        let _ = self.env.pop();
    }

    fn declare(&mut self, name: &String)
        ensures
            final(self)@ == declared(old(self)@, name@),
    {
        self.env.define(name.as_str(), false);
    }

    fn define(&mut self, name: &String)
        ensures
            final(self)@ == initialized(old(self)@, name@),
    {
        let _ = self.env.assign(name.as_str(), true);
    }

    /// Files the use of `name` by the expression `id`.
    fn resolve_local(&mut self, id: usize, name: &String)
        ensures
            final(self)@ == used(old(self)@, id, name@),
    {
        let unready = match self.env.get(name.as_str()) {
            Ok(ready) => !*ready,
            Err(_) => false,
        };
        if unready {
            self.warnings.push(id);
        }
        match self.env.resolve_depth(name.as_str()) {
            Some(depth) => {
                self.locals.insert(id, depth);
            },
            None => {},
        }
    }

    fn resolve_expr(&mut self, expr: &Expr)
        ensures
            final(self)@ == resolve_expr(old(self)@, expr@),
        decreases expr,
    {
        match expr {
            Expr::Assign(id, name, value) => {
                self.resolve_expr(value);
                self.resolve_local(*id, name);
            },
            Expr::Binary(_, l, r) => {
                self.resolve_expr(l);
                self.resolve_expr(r);
            },
            Expr::Logical(_, l, r) => {
                self.resolve_expr(l);
                self.resolve_expr(r);
            },
            Expr::Call(paren, callee, args) => {
                self.resolve_expr(callee);
                let ghost after_callee = self@;
                let ghost views = expr_views(args@);
                proof {
                    lemma_call_view(*paren, **callee, *args);
                    assert(views.take(0) =~= Seq::<ExprView>::empty());
                }
                let mut i: usize = 0;
                while i < args.len()
                    invariant
                        i <= args.len(),
                        views == expr_views(args@),
                        self@ == resolve_exprs(after_callee, views.take(i as int)),
                        decreases_to!(expr => args),
                    decreases args.len() - i,
                {
                    self.resolve_expr(&args[i]);
                    proof {
                        assert(views.take(i + 1).drop_last() =~= views.take(i as int));
                        assert(views.take(i + 1).last() == args@[i as int]@);
                    }
                    i = i + 1;
                }
                proof {
                    assert(views.take(args@.len() as int) =~= views);
                }
            },
            Expr::Grouping(inner) => {
                self.resolve_expr(inner);
            },
            Expr::Unary(_, operand) => {
                self.resolve_expr(operand);
            },
            Expr::Leaf(id, token) => {
                match &token.token_type {
                    TokenType::Identifier(name) => {
                        self.resolve_local(*id, name);
                    },
                    _ => {},
                }
            },
        }
    }

    /// Resolves the statements `stmts` in order, all in the current scope.
    fn resolve_all(&mut self, stmts: &Vec<Stmt>)
        ensures
            final(self)@ == resolve_stmts(old(self)@, stmt_views(stmts@)),
        decreases stmts, 0nat,
    {
        let ghost views = stmt_views(stmts@);
        proof {
            assert(views.take(0) =~= Seq::<StmtView>::empty());
        }
        let mut i: usize = 0;
        while i < stmts.len()
            invariant
                i <= stmts.len(),
                views == stmt_views(stmts@),
                self@ == resolve_stmts(old(self)@, views.take(i as int)),
            decreases stmts.len() - i,
        {
            self.resolve_stmt(&stmts[i]);
            proof {
                assert(views.take(i + 1).drop_last() =~= views.take(i as int));
                assert(views.take(i + 1).last() == stmts@[i as int]@);
            }
            i = i + 1;
        }
        proof {
            assert(views.take(stmts@.len() as int) =~= views);
        }
    }

    fn resolve_block(&mut self, stmts: &Vec<Stmt>)
        ensures
            final(self)@ == left_scope(resolve_stmts(entered(old(self)@), stmt_views(stmts@))),
        decreases stmts, 1nat,
    {
        self.enter();
        self.resolve_all(stmts);
        self.leave();
    }

    fn resolve_fun(&mut self, stmt_fun: &StmtFunction)
        ensures
            final(self)@ == left_scope(
                left_scope(
                    resolve_stmts(
                        entered(with_params(entered(old(self)@), stmt_fun@.params)),
                        stmt_fun@.body,
                    ),
                ),
            ),
        decreases stmt_fun, 0nat,
    {
        self.enter();
        let ghost inside = self@;
        let ghost names = name_views(stmt_fun.params@);
        proof {
            assert(names.take(0) =~= Seq::<Seq<char>>::empty());
        }
        let mut i: usize = 0;
        while i < stmt_fun.params.len()
            invariant
                i <= stmt_fun.params.len(),
                names == name_views(stmt_fun.params@),
                self@ == with_params(inside, names.take(i as int)),
            decreases stmt_fun.params.len() - i,
        {
            self.declare(&stmt_fun.params[i]);
            self.define(&stmt_fun.params[i]);
            proof {
                assert(names.take(i + 1).drop_last() =~= names.take(i as int));
                assert(names.take(i + 1).last() == stmt_fun.params@[i as int]@);
            }
            i = i + 1;
        }
        proof {
            assert(names.take(stmt_fun.params@.len() as int) =~= names);
        }
        self.resolve_block(&stmt_fun.body);
        self.leave();
    }

    fn resolve_if(
        &mut self,
        cond: &Expr,
        then_branch: &Stmt,
        else_branch: &Option<Stmt>,
        Ghost(whole): Ghost<Stmt>,
    )
        requires
            whole == Stmt::If(*cond, Box::new(*then_branch), Box::new(*else_branch)),
        ensures
            final(self)@ == ({
                let after_then = resolve_stmt(resolve_expr(old(self)@, cond@), then_branch@);
                match else_branch {
                    Some(s) => resolve_stmt(after_then, s@),
                    None => after_then,
                }
            }),
        decreases whole, 0nat,
    {
        self.resolve_expr(cond);
        proof {
            assert(decreases_to!(whole => whole->If_1));
        }
        self.resolve_stmt(then_branch);
        match else_branch {
            Some(s) => {
                proof {
                    assert(decreases_to!(whole => whole->If_2));
                    assert(decreases_to!(*whole->If_2 => (*whole->If_2)->Some_0));
                }
                self.resolve_stmt(s);
            },
            None => {},
        }
    }

    fn resolve_var(&mut self, name: &String, expr: &Expr)
        ensures
            final(self)@ == initialized(
                resolve_expr(declared(old(self)@, name@), expr@),
                name@,
            ),
    {
        self.declare(name);
        self.resolve_expr(expr);
        self.define(name);
    }

    fn resolve_while(&mut self, cond: &Expr, body: &Stmt, Ghost(whole): Ghost<Stmt>)
        requires
            whole == Stmt::While(*cond, Box::new(*body)),
        ensures
            final(self)@ == resolve_stmt(resolve_expr(old(self)@, cond@), body@),
        decreases whole, 0nat,
    {
        self.resolve_expr(cond);
        proof {
            assert(decreases_to!(whole => whole->While_1));
        }
        self.resolve_stmt(body);
    }

    /// Resolves one statement: files the depth of every variable reference
    /// and assignment in it, and notes every use of a variable inside its
    /// own initializer. Every scope entered for the statement is left again.
    pub fn resolve_stmt(&mut self, stmt: &Stmt)
        ensures
            final(self)@ == resolve_stmt(old(self)@, stmt@),
        decreases stmt, 1nat,
    {
        match stmt {
            Stmt::Block(stmts) => {
                proof {
                    lemma_block_view(*stmts);
                }
                self.resolve_block(stmts)
            },
            Stmt::Function(stmt_fun) => {
                proof {
                    lemma_function_view(*stmt_fun);
                }
                self.resolve_fun(stmt_fun)
            },
            Stmt::If(cond, then_branch, else_branch) => self.resolve_if(
                cond,
                then_branch,
                else_branch,
                Ghost(*stmt),
            ),
            Stmt::Expression(expr) => self.resolve_expr(expr),
            Stmt::Print(expr) => self.resolve_expr(expr),
            Stmt::Return(expr) => self.resolve_expr(expr),
            Stmt::Var(name, expr) => self.resolve_var(name, expr),
            Stmt::While(cond, body) => self.resolve_while(cond, body, Ghost(*stmt)),
        }
    }
}

} // verus!
