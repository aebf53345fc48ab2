//! A tree consumer: renders an expression tree as one parenthesized
//! line, dispatching over the node variants through the visitor
//! contract.

use vstd::prelude::*;

use crate::error::Error;
use crate::expr::{BinaryExpr, Expr, ExprV, ExprVisitor, GroupingExpr, LiteralExpr, UnaryExpr};
use crate::token::{Literal, LiteralV};

verus! {

/// The text for one literal payload: the variant's name around its
/// value, string-like payloads quoted, a number's decimal spelling as
/// it stood in the source.
pub open spec fn literal_text(l: LiteralV) -> Seq<char> {
    match l {
        LiteralV::Number(s) => "Number("@ + s + ")"@,
        LiteralV::Str(s) => "Str(\""@ + s + "\")"@,
        LiteralV::Identifier(s) => "Identifier(\""@ + s + "\")"@,
    }
}

/// The children's texts, each preceded by one space.
pub open spec fn parts_text(parts: Seq<Seq<char>>) -> Seq<char>
    decreases parts.len(),
{
    if parts.len() == 0 {
        Seq::empty()
    } else {
        parts_text(parts.drop_last()) + " "@ + parts.last()
    }
}

/// One parenthesized group: `( name child ...)`.
pub open spec fn paren_text(name: Seq<char>, parts: Seq<Seq<char>>) -> Seq<char> {
    "( "@ + name + parts_text(parts) + ")"@
}

/// What the printer produces for a tree: leaves print their literal (or
/// `nil`); an operator or grouping node prints as a parenthesized group
/// named by its operator's lexeme (or `group`), holding its children.
pub open spec fn render_spec(e: ExprV) -> Seq<char>
    decreases e,
{
    match e {
        ExprV::Literal(v) => match v {
            Some(l) => literal_text(l),
            None => "nil"@,
        },
        ExprV::Unary(op, right) => paren_text(op.lexeme, seq![render_spec(*right)]),
        ExprV::Binary(left, op, right) => paren_text(
            op.lexeme,
            seq![render_spec(*left), render_spec(*right)],
        ),
        ExprV::Grouping(inner) => paren_text("group"@, seq![render_spec(*inner)]),
    }
}

/// The views of a sequence of strings.
pub open spec fn string_views(s: Seq<String>) -> Seq<Seq<char>> {
    s.map_values(|x: String| x@)
}

/// Prints an expression tree as one parenthesized line.
pub struct AstPrinter;

impl AstPrinter {
    /// Renders the whole tree through the visitor dispatch.
    pub fn print(&self, expr: &Expr) -> (r: Result<String, Error>)
        ensures
            r matches Ok(s) && s@ == render_spec(expr@),
    {
        expr.accept(self)
    }

    /// Joins already-rendered children into `( name child ...)`.
    fn parenthesize(&self, name: &String, parts: &Vec<String>) -> (r: Result<String, Error>)
        ensures
            r matches Ok(s) && s@ == paren_text(name@, string_views(parts@)),
    {
        let mut sb: String = "( ".to_owned();
        sb.append(name.as_str());
        let mut i: usize = 0;
        while i < parts.len()
            invariant
                i <= parts@.len(),
                sb@ == "( "@ + name@ + parts_text(string_views(parts@.subrange(0, i as int))),
            decreases parts@.len() - i,
        {
            sb.append(" ");
            sb.append(parts[i].as_str());
            proof {
                let sv = string_views(parts@.subrange(0, i + 1));
                assert(sv.drop_last() =~= string_views(parts@.subrange(0, i as int)));
                assert(sv.last() == parts@[i as int]@);
            }
            i = i + 1;
        }
        proof {
            assert(parts@.subrange(0, parts@.len() as int) =~= parts@);
        }
        sb.append(")");
        Ok(sb)
    }

    /// Renders one subtree.
    fn render(&self, expr: &Expr) -> (r: String)
        ensures
            r@ == render_spec(expr@),
        decreases expr,
    {
        match expr {
            Expr::Literal(le) => match &le.value {
                Some(l) => literal_string(l),
                None => "nil".to_owned(),
            },
            Expr::Unary(ue) => {
                let child = self.render(&*ue.right);
                let ghost cv = child@;
                let mut parts: Vec<String> = Vec::new();
                parts.push(child);
                proof {
                    assert(string_views(parts@) =~= seq![cv]);
                }
                match self.parenthesize(&ue.operator.lexeme, &parts) {
                    Ok(s) => s,
                    Err(_) => vstd::pervasive::unreached(),
                }
            },
            Expr::Binary(be) => {
                let left = self.render(&*be.left);
                let right = self.render(&*be.right);
                let ghost lv = left@;
                let ghost rv = right@;
                let mut parts: Vec<String> = Vec::new();
                parts.push(left);
                parts.push(right);
                proof {
                    assert(string_views(parts@) =~= seq![lv, rv]);
                }
                match self.parenthesize(&be.operator.lexeme, &parts) {
                    Ok(s) => s,
                    Err(_) => vstd::pervasive::unreached(),
                }
            },
            Expr::Grouping(ge) => {
                let child = self.render(&*ge.expression);
                let ghost cv = child@;
                let mut parts: Vec<String> = Vec::new();
                parts.push(child);
                proof {
                    assert(string_views(parts@) =~= seq![cv]);
                }
                match self.parenthesize(&"group".to_owned(), &parts) {
                    Ok(s) => s,
                    Err(_) => vstd::pervasive::unreached(),
                }
            },
        }
    }
}

impl ExprVisitor<String> for AstPrinter {
    /// The printer's promise: rendering always succeeds and produces
    /// exactly the model text of the tree.
    open spec fn visit_ok(&self, e: ExprV, r: Result<String, Error>) -> bool {
        r matches Ok(s) && s@ == render_spec(e)
    }

    fn visit_literal_expr(&self, expr: &LiteralExpr) -> (r: Result<String, Error>) {
        match &expr.value {
            Some(l) => Ok(literal_string(l)),
            None => Ok("nil".to_owned()),
        }
    }

    fn visit_grouping_expr(&self, expr: &GroupingExpr) -> (r: Result<String, Error>) {
        let child = self.render(&*expr.expression);
        let ghost cv = child@;
        let mut parts: Vec<String> = Vec::new();
        parts.push(child);
        proof {
            assert(string_views(parts@) =~= seq![cv]);
        }
        self.parenthesize(&"group".to_owned(), &parts)
    }

    fn visit_unary_expr(&self, expr: &UnaryExpr) -> (r: Result<String, Error>) {
        let child = self.render(&*expr.right);
        let ghost cv = child@;
        let mut parts: Vec<String> = Vec::new();
        parts.push(child);
        proof {
            assert(string_views(parts@) =~= seq![cv]);
        }
        self.parenthesize(&expr.operator.lexeme, &parts)
    }

    fn visit_binary_expr(&self, expr: &BinaryExpr) -> (r: Result<String, Error>) {
        let left = self.render(&*expr.left);
        let right = self.render(&*expr.right);
        let ghost lv = left@;
        let ghost rv = right@;
        let mut parts: Vec<String> = Vec::new();
        parts.push(left);
        parts.push(right);
        proof {
            assert(string_views(parts@) =~= seq![lv, rv]);
        }
        self.parenthesize(&expr.operator.lexeme, &parts)
    }
}

/// The text for one literal payload.
fn literal_string(l: &Literal) -> (r: String)
    ensures
        r@ == literal_text(l@),
{
    match l {
        Literal::Number(s) => {
            let mut t: String = "Number(".to_owned();
            t.append(s.as_str());
            t.append(")");
            t
        },
        Literal::Str(s) => {
            let mut t: String = "Str(\"".to_owned();
            t.append(s.as_str());
            t.append("\")");
            t
        },
        Literal::Identifier(s) => {
            let mut t: String = "Identifier(\"".to_owned();
            t.append(s.as_str());
            t.append("\")");
            t
        },
    }
}

} // verus!
