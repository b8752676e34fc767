use vstd::prelude::*;
use vstd::string::StringExecFns;
use vstd::string::StringSliceAdditionalSpecFns;

use crate::ast::{lemma_exprs_push, lemma_items_push, lemma_stmts_push, lemma_strings_push, strings_view, items_view, bx, exprs_view, stmts_view, Expr, FnDef, Item, Program, SpecExpr, SpecFnDef, SpecItem, SpecStmt, Stmt};
use crate::error::{res_view, LangError, SpecError};
use crate::lexer::{law_lexing_progresses, lex_answer, spec_next_token, Lexer};
use crate::token::{token_debug, SpecToken, Token};

verus! {

// ---------------------------------------------------------------------------
// The grammar, as a parser on the bytes of the source text.
//
// expr      := equality
// equality  := compare ( (==|!=) compare )*
// compare   := add ( (<|<=|>|>=) add )*
// add       := mul ( (+|-) mul )*
// mul       := unary ( (*|/|%) unary )*
// unary     := (& (mut) unary) | (- unary) | postfix
// postfix   := primary ( (args) | [expr] )*
// primary   := int | str | true | false | ident | vec | (expr)
// ---------------------------------------------------------------------------

/// Where the parser stands: the position of the lexer after the current token,
/// and the current token.
pub struct PState {
    pub pos: int,
    pub cur: SpecToken,
}

/// What a parsing step gives: the value read and the state after it, or an error.
pub type PRes<T> = Result<(T, PState), SpecError>;

/// A measure of the input left, which every token read lowers.
pub open spec fn measure(s: Seq<u8>, st: PState) -> nat {
    (2 * (if 0 <= st.pos <= s.len() {
        s.len() - st.pos
    } else {
        0
    }) + (if st.cur is Eof {
        0int
    } else {
        1int
    })) as nat
}

/// The error that stands where a step would not move forward; no input reaches it,
/// since every step that reads a token moves forward.
pub open spec fn stalled<T>() -> Result<T, SpecError> {
    Err(SpecError::Parse(Seq::empty()))
}

/// Reads the next token.
pub open spec fn p_bump(s: Seq<u8>, st: PState) -> Result<PState, SpecError> {
    let (r, p) = spec_next_token(s, st.pos);
    match r {
        Ok(t) => Ok(PState { pos: p, cur: t }),
        Err(m) => Err(SpecError::Lex(m)),
    }
}

pub proof fn lemma_bump(s: Seq<u8>, st: PState)
    requires
        st.cur != SpecToken::Eof,
    ensures
        p_bump(s, st) matches Ok(st2) ==> measure(s, st2) < measure(s, st),
{
    if 0 <= st.pos {
        law_lexing_progresses(s, st.pos);
    }
}

pub open spec fn expected_message(t: SpecToken, got: SpecToken) -> Seq<char> {
    "Expected "@ + token_debug(t) + ", got "@ + token_debug(got)
}

/// Reads the token `t`, or fails if the current token is another.
pub open spec fn p_expect(s: Seq<u8>, st: PState, t: SpecToken) -> Result<PState, SpecError> {
    if st.cur == t {
        p_bump(s, st)
    } else {
        Err(SpecError::Parse(expected_message(t, st.cur)))
    }
}

pub proof fn lemma_expect(s: Seq<u8>, st: PState, t: SpecToken)
    requires
        t != SpecToken::Eof,
    ensures
        p_expect(s, st, t) matches Ok(st2) ==> measure(s, st2) < measure(s, st),
{
    if st.cur == t {
        lemma_bump(s, st);
    }
}

/// Reads an identifier.
pub open spec fn p_expect_ident(s: Seq<u8>, st: PState) -> PRes<Seq<char>> {
    match st.cur {
        SpecToken::Ident(x) => match p_bump(s, st) {
            Ok(st2) => Ok((x, st2)),
            Err(e) => Err(e),
        },
        _ => Err(SpecError::Parse("Expected identifier, got "@ + token_debug(st.cur))),
    }
}

pub proof fn lemma_expect_ident(s: Seq<u8>, st: PState)
    ensures
        p_expect_ident(s, st) matches Ok((_, st2)) ==> measure(s, st2) < measure(s, st),
{
    if st.cur is Ident {
        lemma_bump(s, st);
    }
}

/// The binary operators of precedence level `k` (0: equality, 1: comparison,
/// 2: addition, 3: multiplication), by token.
pub open spec fn binop_of(k: nat, t: SpecToken) -> Option<nat> {
    if k == 0 {
        if t == SpecToken::EqEq {
            Some(0nat)
        } else if t == SpecToken::NotEq {
            Some(1nat)
        } else {
            None
        }
    } else if k == 1 {
        if t == SpecToken::Lt {
            Some(2nat)
        } else if t == SpecToken::Le {
            Some(3nat)
        } else if t == SpecToken::Gt {
            Some(4nat)
        } else if t == SpecToken::Ge {
            Some(5nat)
        } else {
            None
        }
    } else if k == 2 {
        if t == SpecToken::Plus {
            Some(6nat)
        } else if t == SpecToken::Minus {
            Some(7nat)
        } else {
            None
        }
    } else {
        if t == SpecToken::Star {
            Some(8nat)
        } else if t == SpecToken::Slash {
            Some(9nat)
        } else if t == SpecToken::Percent {
            Some(10nat)
        } else {
            None
        }
    }
}

/// The expression that binary operator `op` builds.
pub open spec fn mk_binop(op: nat, l: SpecExpr, r: SpecExpr) -> SpecExpr {
    let (l, r) = (bx(l), bx(r));
    if op == 0 {
        SpecExpr::Eq { left: l, right: r }
    } else if op == 1 {
        SpecExpr::Ne { left: l, right: r }
    } else if op == 2 {
        SpecExpr::Lt { left: l, right: r }
    } else if op == 3 {
        SpecExpr::Le { left: l, right: r }
    } else if op == 4 {
        SpecExpr::Gt { left: l, right: r }
    } else if op == 5 {
        SpecExpr::Ge { left: l, right: r }
    } else if op == 6 {
        SpecExpr::Add { left: l, right: r }
    } else if op == 7 {
        SpecExpr::Sub { left: l, right: r }
    } else if op == 8 {
        SpecExpr::Mul { left: l, right: r }
    } else if op == 9 {
        SpecExpr::Div { left: l, right: r }
    } else {
        SpecExpr::Mod { left: l, right: r }
    }
}

pub open spec fn lvl(k: nat) -> int {
    if k <= 3 {
        k as int
    } else {
        3
    }
}

/// expr := equality
pub open spec fn p_expr(s: Seq<u8>, st: PState) -> PRes<SpecExpr>
    decreases measure(s, st), 21int,
{
    p_binary(0, s, st)
}

/// An operand of the binary operators of level `k`.
pub open spec fn p_operand(k: nat, s: Seq<u8>, st: PState) -> PRes<SpecExpr>
    decreases measure(s, st), 18 - 3 * lvl(k),
{
    if k < 3 {
        p_binary(k + 1, s, st)
    } else {
        p_unary(s, st)
    }
}

/// Level `k`: operand ( op operand )*, left-associative.
pub open spec fn p_binary(k: nat, s: Seq<u8>, st: PState) -> PRes<SpecExpr>
    decreases measure(s, st), 20 - 3 * lvl(k),
{
    match p_operand(k, s, st) {
        Err(e) => Err(e),
        Ok((e, st2)) => if measure(s, st2) <= measure(s, st) {
            p_binary_tail(k, s, st2, e)
        } else {
            stalled()
        },
    }
}

/// The rest of level `k` after the left operand `e`.
pub open spec fn p_binary_tail(k: nat, s: Seq<u8>, st: PState, e: SpecExpr) -> PRes<SpecExpr>
    decreases measure(s, st), 19 - 3 * lvl(k),
{
    match binop_of(k, st.cur) {
        None => Ok((e, st)),
        Some(op) => match p_bump(s, st) {
            Err(x) => Err(x),
            Ok(st1) => {
                proof {
                    lemma_bump(s, st);
                }
                match p_operand(k, s, st1) {
                    Err(x) => Err(x),
                    Ok((rhs, st2)) => if measure(s, st2) < measure(s, st) {
                        p_binary_tail(k, s, st2, mk_binop(op, e, rhs))
                    } else {
                        stalled()
                    },
                }
            },
        },
    }
}

/// unary := (& (mut) unary) | (- unary) | postfix
pub open spec fn p_unary(s: Seq<u8>, st: PState) -> PRes<SpecExpr>
    decreases measure(s, st), 8int,
{
    if st.cur == SpecToken::Amp {
        match p_bump(s, st) {
            Err(x) => Err(x),
            Ok(st1) => {
                proof {
                    lemma_bump(s, st);
                }
                let mm = if st1.cur == SpecToken::Mut {
                    match p_bump(s, st1) {
                        Err(x) => Err(x),
                        Ok(st2) => Ok((true, st2)),
                    }
                } else {
                    Ok((false, st1))
                };
                match mm {
                    Err(x) => Err(x),
                    Ok((m, st2)) => {
                        proof {
                            if st1.cur == SpecToken::Mut {
                                lemma_bump(s, st1);
                            }
                        }
                        match p_unary(s, st2) {
                            Err(x) => Err(x),
                            Ok((inner, st3)) => Ok((SpecExpr::Borrow { mut_: m, expr: bx(inner) }, st3)),
                        }
                    },
                }
            },
        }
    } else if st.cur == SpecToken::Minus {
        match p_bump(s, st) {
            Err(x) => Err(x),
            Ok(st1) => {
                proof {
                    lemma_bump(s, st);
                }
                match p_unary(s, st1) {
                    Err(x) => Err(x),
                    Ok((inner, st2)) => Ok((SpecExpr::Neg { expr: bx(inner) }, st2)),
                }
            },
        }
    } else {
        p_postfix(s, st)
    }
}

/// postfix := primary ( (args) | [expr] )*
pub open spec fn p_postfix(s: Seq<u8>, st: PState) -> PRes<SpecExpr>
    decreases measure(s, st), 7int,
{
    match p_primary(s, st) {
        Err(x) => Err(x),
        Ok((e, st2)) => if measure(s, st2) <= measure(s, st) {
            p_postfix_tail(s, st2, e)
        } else {
            stalled()
        },
    }
}

/// The arguments of a call after `(`: none, or expressions separated by commas.
pub open spec fn p_args(s: Seq<u8>, st: PState) -> PRes<Seq<SpecExpr>>
    decreases measure(s, st), 24int,
{
    if st.cur == SpecToken::RParen {
        Ok((Seq::empty(), st))
    } else {
        p_list(s, st)
    }
}

/// One or more expressions separated by commas.
pub open spec fn p_list(s: Seq<u8>, st: PState) -> PRes<Seq<SpecExpr>>
    decreases measure(s, st), 23int,
{
    match p_expr(s, st) {
        Err(x) => Err(x),
        Ok((e, st2)) => if measure(s, st2) <= measure(s, st) {
            p_list_more(s, st2, seq![e])
        } else {
            stalled()
        },
    }
}

/// More list items, each after a comma, following those in `acc`.
pub open spec fn p_list_more(s: Seq<u8>, st: PState, acc: Seq<SpecExpr>) -> PRes<Seq<SpecExpr>>
    decreases measure(s, st), 22int,
{
    if st.cur == SpecToken::Comma {
        match p_bump(s, st) {
            Err(x) => Err(x),
            Ok(st1) => {
                proof {
                    lemma_bump(s, st);
                }
                match p_expr(s, st1) {
                    Err(x) => Err(x),
                    Ok((e, st2)) => if measure(s, st2) < measure(s, st) {
                        p_list_more(s, st2, acc.push(e))
                    } else {
                        stalled()
                    },
                }
            },
        }
    } else {
        Ok((acc, st))
    }
}

/// A call's arguments in brackets, after the callee.
pub open spec fn p_call_suffix(s: Seq<u8>, st: PState, callee: Seq<char>) -> PRes<SpecExpr>
    decreases measure(s, st), 3int,
{
    match p_bump(s, st) {
        Err(x) => Err(x),
        Ok(st1) => {
            proof {
                if st.cur != SpecToken::Eof {
                    lemma_bump(s, st);
                }
            }
            if measure(s, st1) < measure(s, st) {
                match p_args(s, st1) {
                    Err(x) => Err(x),
                    Ok((args, st2)) => match p_expect(s, st2, SpecToken::RParen) {
                        Err(x) => Err(x),
                        Ok(st3) => Ok((SpecExpr::Call { callee, args }, st3)),
                    },
                }
            } else {
                stalled()
            }
        },
    }
}

/// An index in square brackets after the expression `base`.
pub open spec fn p_index_suffix(s: Seq<u8>, st: PState, base: SpecExpr) -> PRes<SpecExpr>
    decreases measure(s, st), 3int,
{
    match p_bump(s, st) {
        Err(x) => Err(x),
        Ok(st1) => {
            proof {
                if st.cur != SpecToken::Eof {
                    lemma_bump(s, st);
                }
            }
            if measure(s, st1) < measure(s, st) {
                match p_expr(s, st1) {
                    Err(x) => Err(x),
                    Ok((idx, st2)) => match p_expect(s, st2, SpecToken::RBracket) {
                        Err(x) => Err(x),
                        Ok(st3) => Ok((SpecExpr::Index { base: bx(base), index: bx(idx) }, st3)),
                    },
                }
            } else {
                stalled()
            }
        },
    }
}

/// Calls and indexing after the expression `e`.
pub open spec fn p_postfix_tail(s: Seq<u8>, st: PState, e: SpecExpr) -> PRes<SpecExpr>
    decreases measure(s, st), 6int,
{
    let step = if st.cur == SpecToken::LParen {
        match e {
            SpecExpr::Ident(callee) => Some(p_call_suffix(s, st, callee)),
            _ => Some(Err(SpecError::Parse("Call target must be identifier"@))),
        }
    } else if st.cur == SpecToken::LBracket {
        Some(p_index_suffix(s, st, e))
    } else {
        None
    };
    match step {
        None => Ok((e, st)),
        Some(Err(x)) => Err(x),
        Some(Ok((e2, st2))) => if measure(s, st2) < measure(s, st) {
            p_postfix_tail(s, st2, e2)
        } else {
            stalled()
        },
    }
}

/// primary := int | str | true | false | ident | vec | (expr)
pub open spec fn p_primary(s: Seq<u8>, st: PState) -> PRes<SpecExpr>
    decreases measure(s, st), 5int,
{
    match st.cur {
        SpecToken::Int(n) => match p_bump(s, st) {
            Err(x) => Err(x),
            Ok(st1) => Ok((SpecExpr::Int(n), st1)),
        },
        SpecToken::Str(v) => match p_bump(s, st) {
            Err(x) => Err(x),
            Ok(st1) => Ok((SpecExpr::Str(v), st1)),
        },
        SpecToken::True => match p_bump(s, st) {
            Err(x) => Err(x),
            Ok(st1) => Ok((SpecExpr::Bool(true), st1)),
        },
        SpecToken::False => match p_bump(s, st) {
            Err(x) => Err(x),
            Ok(st1) => Ok((SpecExpr::Bool(false), st1)),
        },
        SpecToken::Ident(v) => match p_bump(s, st) {
            Err(x) => Err(x),
            Ok(st1) => Ok((SpecExpr::Ident(v), st1)),
        },
        SpecToken::LBracket => p_vec_lit(s, st),
        SpecToken::LParen => match p_bump(s, st) {
            Err(x) => Err(x),
            Ok(st1) => {
                proof {
                    lemma_bump(s, st);
                }
                match p_expr(s, st1) {
                    Err(x) => Err(x),
                    Ok((e, st2)) => match p_expect(s, st2, SpecToken::RParen) {
                        Err(x) => Err(x),
                        Ok(st3) => Ok((e, st3)),
                    },
                }
            },
        },
        _ => Err(SpecError::Parse("Unexpected token in expr: "@ + token_debug(st.cur))),
    }
}

/// vec := [ ] | [ expr (, expr)* ]
pub open spec fn p_vec_lit(s: Seq<u8>, st: PState) -> PRes<SpecExpr>
    decreases measure(s, st), 4int,
{
    match p_expect(s, st, SpecToken::LBracket) {
        Err(x) => Err(x),
        Ok(st1) => {
            proof {
                lemma_expect(s, st, SpecToken::LBracket);
            }
            let items = if st1.cur == SpecToken::RBracket {
                Ok((Seq::empty(), st1))
            } else {
                p_list(s, st1)
            };
            match items {
                Err(x) => Err(x),
                Ok((xs, st2)) => match p_expect(s, st2, SpecToken::RBracket) {
                    Err(x) => Err(x),
                    Ok(st3) => Ok((SpecExpr::VecLit(xs), st3)),
                },
            }
        },
    }
}

/// The rest of an expression whose first primary `left` has been read.
pub open spec fn p_expr_with_left(s: Seq<u8>, st: PState, left: SpecExpr) -> PRes<SpecExpr> {
    match p_postfix_tail(s, st, left) {
        Err(x) => Err(x),
        Ok((e1, st1)) => match p_binary_tail(3, s, st1, e1) {
            Err(x) => Err(x),
            Ok((e2, st2)) => match p_binary_tail(2, s, st2, e2) {
                Err(x) => Err(x),
                Ok((e3, st3)) => match p_binary_tail(1, s, st3, e3) {
                    Err(x) => Err(x),
                    Ok((e4, st4)) => p_binary_tail(0, s, st4, e4),
                },
            },
        },
    }
}

/// let := let ident = expr ;
pub open spec fn p_let(s: Seq<u8>, st: PState) -> PRes<SpecStmt> {
    match p_expect(s, st, SpecToken::Let) {
        Err(x) => Err(x),
        Ok(st1) => match p_expect_ident(s, st1) {
            Err(x) => Err(x),
            Ok((name, st2)) => match p_expect(s, st2, SpecToken::Eq) {
                Err(x) => Err(x),
                Ok(st3) => match p_expr(s, st3) {
                    Err(x) => Err(x),
                    Ok((expr, st4)) => match p_expect(s, st4, SpecToken::Semi) {
                        Err(x) => Err(x),
                        Ok(st5) => Ok((SpecStmt::Let { name, expr }, st5)),
                    },
                },
            },
        },
    }
}

/// An expression followed by `;`.
pub open spec fn p_expr_semi(s: Seq<u8>, st: PState) -> PRes<SpecExpr> {
    match p_expr(s, st) {
        Err(x) => Err(x),
        Ok((e, st1)) => match p_expect(s, st1, SpecToken::Semi) {
            Err(x) => Err(x),
            Ok(st2) => Ok((e, st2)),
        },
    }
}

/// print := print expr ;
pub open spec fn p_print(s: Seq<u8>, st: PState) -> PRes<SpecStmt> {
    match p_expect(s, st, SpecToken::Print) {
        Err(x) => Err(x),
        Ok(st1) => match p_expr_semi(s, st1) {
            Err(x) => Err(x),
            Ok((expr, st2)) => Ok((SpecStmt::Print { expr }, st2)),
        },
    }
}

/// return := return expr ;
pub open spec fn p_return(s: Seq<u8>, st: PState) -> PRes<SpecStmt> {
    match p_expect(s, st, SpecToken::Return) {
        Err(x) => Err(x),
        Ok(st1) => match p_expr_semi(s, st1) {
            Err(x) => Err(x),
            Ok((e, st2)) => Ok((SpecStmt::Return(e), st2)),
        },
    }
}

/// A statement that starts with an identifier: an assignment `x = expr ;`, or an
/// expression statement whose first primary is the identifier.
pub open spec fn p_ident_stmt(s: Seq<u8>, st: PState, name: Seq<char>) -> PRes<SpecStmt> {
    match p_bump(s, st) {
        Err(x) => Err(x),
        Ok(st1) => if st1.cur == SpecToken::Eq {
            match p_bump(s, st1) {
                Err(x) => Err(x),
                Ok(st2) => match p_expr_semi(s, st2) {
                    Err(x) => Err(x),
                    Ok((expr, st3)) => Ok((SpecStmt::Assign { name, expr }, st3)),
                },
            }
        } else {
            match p_expr_with_left(s, st1, SpecExpr::Ident(name)) {
                Err(x) => Err(x),
                Ok((expr, st2)) => match p_expect(s, st2, SpecToken::Semi) {
                    Err(x) => Err(x),
                    Ok(st3) => Ok((SpecStmt::ExprStmt { expr }, st3)),
                },
            }
        },
    }
}

/// stmt := let | print | for | return | if | assignment | expr ;
pub open spec fn p_stmt(s: Seq<u8>, st: PState) -> PRes<SpecStmt>
    decreases measure(s, st), 1int,
{
    match st.cur {
        SpecToken::Let => p_let(s, st),
        SpecToken::Print => p_print(s, st),
        SpecToken::For => p_for(s, st),
        SpecToken::Return => p_return(s, st),
        SpecToken::If => p_if(s, st),
        SpecToken::Ident(name) => p_ident_stmt(s, st, name),
        _ => match p_expr_semi(s, st) {
            Err(x) => Err(x),
            Ok((expr, st1)) => Ok((SpecStmt::ExprStmt { expr }, st1)),
        },
    }
}

/// for := for ident in expr block
pub open spec fn p_for(s: Seq<u8>, st: PState) -> PRes<SpecStmt>
    decreases measure(s, st), 0int,
{
    match p_expect(s, st, SpecToken::For) {
        Err(x) => Err(x),
        Ok(st1) => match p_expect_ident(s, st1) {
            Err(x) => Err(x),
            Ok((var, st2)) => match p_expect(s, st2, SpecToken::In) {
                Err(x) => Err(x),
                Ok(st3) => match p_expr(s, st3) {
                    Err(x) => Err(x),
                    Ok((iter, st4)) => if measure(s, st4) < measure(s, st) {
                        match p_block(s, st4) {
                            Err(x) => Err(x),
                            Ok((body, st5)) => Ok((SpecStmt::For { var, iter, body }, st5)),
                        }
                    } else {
                        stalled()
                    },
                },
            },
        },
    }
}

/// An optional `else block`.
pub open spec fn p_else(s: Seq<u8>, st: PState) -> PRes<Seq<SpecStmt>>
    decreases measure(s, st), 0int,
{
    if st.cur == SpecToken::Else {
        match p_bump(s, st) {
            Err(x) => Err(x),
            Ok(st1) => {
                proof {
                    lemma_bump(s, st);
                }
                p_block(s, st1)
            },
        }
    } else {
        Ok((Seq::empty(), st))
    }
}

/// if := if expr block ( else block )?
pub open spec fn p_if(s: Seq<u8>, st: PState) -> PRes<SpecStmt>
    decreases measure(s, st), 0int,
{
    match p_expect(s, st, SpecToken::If) {
        Err(x) => Err(x),
        Ok(st1) => match p_expr(s, st1) {
            Err(x) => Err(x),
            Ok((cond, st2)) => if measure(s, st2) < measure(s, st) {
                match p_block(s, st2) {
                    Err(x) => Err(x),
                    Ok((then_body, st3)) => if measure(s, st3) < measure(s, st) {
                        match p_else(s, st3) {
                            Err(x) => Err(x),
                            Ok((else_body, st4)) => Ok(
                                (SpecStmt::If { cond, then_body, else_body }, st4),
                            ),
                        }
                    } else {
                        stalled()
                    },
                }
            } else {
                stalled()
            },
        },
    }
}

/// block := { stmt* }
pub open spec fn p_block(s: Seq<u8>, st: PState) -> PRes<Seq<SpecStmt>>
    decreases measure(s, st), 3int,
{
    match p_expect(s, st, SpecToken::LBrace) {
        Err(x) => Err(x),
        Ok(st1) => {
            proof {
                lemma_expect(s, st, SpecToken::LBrace);
            }
            p_block_body(s, st1, Seq::empty())
        },
    }
}

/// The statements of a block after those in `acc`, up to and including `}`.
pub open spec fn p_block_body(s: Seq<u8>, st: PState, acc: Seq<SpecStmt>) -> PRes<Seq<SpecStmt>>
    decreases measure(s, st), 2int,
{
    if st.cur == SpecToken::RBrace {
        match p_expect(s, st, SpecToken::RBrace) {
            Err(x) => Err(x),
            Ok(st1) => Ok((acc, st1)),
        }
    } else if st.cur == SpecToken::Eof {
        Err(SpecError::Parse("Unclosed block"@))
    } else {
        match p_stmt(s, st) {
            Err(x) => Err(x),
            Ok((x, st1)) => if measure(s, st1) < measure(s, st) {
                p_block_body(s, st1, acc.push(x))
            } else {
                stalled()
            },
        }
    }
}

/// More parameters, each after a comma, following those in `acc`.
pub open spec fn p_params_more(s: Seq<u8>, st: PState, acc: Seq<Seq<char>>) -> PRes<Seq<Seq<char>>>
    decreases measure(s, st),
{
    if st.cur == SpecToken::Comma {
        match p_bump(s, st) {
            Err(x) => Err(x),
            Ok(st1) => match p_expect_ident(s, st1) {
                Err(x) => Err(x),
                Ok((name, st2)) => {
                    proof {
                        lemma_bump(s, st);
                        lemma_expect_ident(s, st1);
                    }
                    p_params_more(s, st2, acc.push(name))
                },
            },
        }
    } else {
        Ok((acc, st))
    }
}

/// params := ( ident (, ident)* )?
pub open spec fn p_params(s: Seq<u8>, st: PState) -> PRes<Seq<Seq<char>>> {
    if st.cur != SpecToken::RParen {
        match p_expect_ident(s, st) {
            Err(x) => Err(x),
            Ok((p, st1)) => p_params_more(s, st1, seq![p]),
        }
    } else {
        Ok((Seq::empty(), st))
    }
}

/// item := fn | stmt
pub open spec fn p_item(s: Seq<u8>, st: PState) -> PRes<SpecItem> {
    if st.cur == SpecToken::Fn {
        match p_fn_def(s, st) {
            Err(x) => Err(x),
            Ok((f, st1)) => Ok((SpecItem::Fn(f), st1)),
        }
    } else {
        match p_stmt(s, st) {
            Err(x) => Err(x),
            Ok((x, st1)) => Ok((SpecItem::Stmt(x), st1)),
        }
    }
}

/// fn := fn ident ( params ) block
pub open spec fn p_fn_def(s: Seq<u8>, st: PState) -> PRes<SpecFnDef> {
    match p_expect(s, st, SpecToken::Fn) {
        Err(x) => Err(x),
        Ok(st1) => match p_expect_ident(s, st1) {
            Err(x) => Err(x),
            Ok((name, st2)) => match p_expect(s, st2, SpecToken::LParen) {
                Err(x) => Err(x),
                Ok(st3) => {
                    match p_params(s, st3) {
                        Err(x) => Err(x),
                        Ok((params, st5)) => match p_expect(s, st5, SpecToken::RParen) {
                            Err(x) => Err(x),
                            Ok(st6) => match p_block(s, st6) {
                                Err(x) => Err(x),
                                Ok((body, st7)) => Ok((SpecFnDef { name, params, body }, st7)),
                            },
                        },
                    }
                },
            },
        },
    }
}

/// The items of a program after those in `acc`, up to the end of the input.
pub open spec fn p_items(s: Seq<u8>, st: PState, acc: Seq<SpecItem>) -> PRes<Seq<SpecItem>>
    decreases measure(s, st),
{
    if st.cur == SpecToken::Eof {
        Ok((acc, st))
    } else {
        match p_item(s, st) {
            Err(x) => Err(x),
            Ok((it, st1)) => if measure(s, st1) < measure(s, st) {
                p_items(s, st1, acc.push(it))
            } else {
                stalled()
            },
        }
    }
}

/// The parser's state after it has read the first token of `s`.
pub open spec fn p_start(s: Seq<u8>) -> Result<PState, SpecError> {
    p_bump(s, PState { pos: 0, cur: SpecToken::Eof })
}

/// The program that the source bytes `s` hold, or the first error met in reading it.
pub open spec fn spec_parse(s: Seq<u8>) -> Result<Seq<SpecItem>, SpecError> {
    match p_start(s) {
        Err(x) => Err(x),
        Ok(st) => match p_items(s, st, Seq::empty()) {
            Err(x) => Err(x),
            Ok((items, _)) => Ok(items),
        },
    }
}

// ---------------------------------------------------------------------------
// The parser.
// ---------------------------------------------------------------------------

/// Whether an answer of the parser is the one that the grammar gives, with the
/// parser left in the state that it gives.
pub open spec fn answers<T: View>(r: Result<T, LangError>, after: PState, g: PRes<T::V>) -> bool {
    match g {
        Ok((v, st)) => r matches Ok(x) && x@ == v && after == st,
        Err(e) => r matches Err(x) && x@ == e,
    }
}

/// Whether an answer that carries no value is the one that the grammar gives.
pub open spec fn answers_step(r: Result<(), LangError>, after: PState, g: Result<PState, SpecError>) -> bool {
    match g {
        Ok(st) => r is Ok && after == st,
        Err(e) => r matches Err(x) && x@ == e,
    }
}

pub fn parse_error(msg: &str) -> (e: LangError)
    ensures
        e@ == SpecError::Parse(msg@),
{
    LangError::Parse(String::from_str(msg))
}

fn binop_of_token(k: u8, t: &Token) -> (r: Option<u8>)
    requires
        k <= 3,
    ensures
        match r {
            Some(op) => binop_of(k as nat, t@) == Some(op as nat) && op <= 10,
            None => binop_of(k as nat, t@) is None,
        },
{
    match t {
        Token::EqEq => if k == 0 { Some(0) } else { None },
        Token::NotEq => if k == 0 { Some(1) } else { None },
        Token::Lt => if k == 1 { Some(2) } else { None },
        Token::Le => if k == 1 { Some(3) } else { None },
        Token::Gt => if k == 1 { Some(4) } else { None },
        Token::Ge => if k == 1 { Some(5) } else { None },
        Token::Plus => if k == 2 { Some(6) } else { None },
        Token::Minus => if k == 2 { Some(7) } else { None },
        Token::Star => if k == 3 { Some(8) } else { None },
        Token::Slash => if k == 3 { Some(9) } else { None },
        Token::Percent => if k == 3 { Some(10) } else { None },
        _ => None,
    }
}

fn make_binop(op: u8, l: Expr, r: Expr) -> (e: Expr)
    ensures
        e@ == mk_binop(op as nat, l@, r@),
{
    let (l, r) = (Box::new(l), Box::new(r));
    if op == 0 {
        Expr::Eq { left: l, right: r }
    } else if op == 1 {
        Expr::Ne { left: l, right: r }
    } else if op == 2 {
        Expr::Lt { left: l, right: r }
    } else if op == 3 {
        Expr::Le { left: l, right: r }
    } else if op == 4 {
        Expr::Gt { left: l, right: r }
    } else if op == 5 {
        Expr::Ge { left: l, right: r }
    } else if op == 6 {
        Expr::Add { left: l, right: r }
    } else if op == 7 {
        Expr::Sub { left: l, right: r }
    } else if op == 8 {
        Expr::Mul { left: l, right: r }
    } else if op == 9 {
        Expr::Div { left: l, right: r }
    } else {
        Expr::Mod { left: l, right: r }
    }
}

/// A recursive-descent parser over the tokens of a source text.
pub struct Parser<'a> {
    lex: Lexer<'a>,
    cur: Token,
}

impl<'a> Parser<'a> {
    /// The bytes of the source text.
    pub closed spec fn input(&self) -> Seq<u8> {
        self.lex.bytes()
    }

    /// Where the parser stands.
    pub closed spec fn state(&self) -> PState {
        PState { pos: self.lex.pos(), cur: self.cur@ }
    }

    pub closed spec fn wf(&self) -> bool {
        self.lex.wf()
    }

    pub closed spec fn m(&self) -> nat {
        measure(self.input(), self.state())
    }

    /// A parser at the first token of `input`; fails if that token does not lex.
    pub fn new(input: &'a str) -> (r: Result<Self, LangError>)
        ensures
            match p_start(input.spec_bytes()) {
                Ok(st) => r matches Ok(p) && p.wf() && p.input() == input.spec_bytes() && p.state()
                    == st,
                Err(e) => r matches Err(x) && x@ == e,
            },
    {
        let mut lex = Lexer::new(input);
        let cur = lex.next_token()?;
        Ok(Parser { lex, cur })
    }

    /// The current token.
    pub fn current(&self) -> (t: &Token)
        ensures
            t@ == self.state().cur,
    {
        &self.cur
    }

    fn bump(&mut self) -> (r: Result<(), LangError>)
        requires
            old(self).wf(),
        ensures
            final(self).wf(),
            final(self).input() == old(self).input(),
            answers_step(r, final(self).state(), p_bump(old(self).input(), old(self).state())),
            r is Ok && old(self).cur@ != SpecToken::Eof ==> final(self).m() < old(self).m(),
    {
        proof {
            if self.cur@ != SpecToken::Eof {
                lemma_bump(self.input(), self.state());
            }
        }
        self.cur = self.lex.next_token()?;
        Ok(())
    }

    fn expect(&mut self, t: Token) -> (r: Result<(), LangError>)
        requires
            old(self).wf(),
            t@ != SpecToken::Eof,
        ensures
            final(self).wf(),
            final(self).input() == old(self).input(),
            answers_step(r, final(self).state(), p_expect(old(self).input(), old(self).state(), t@)),
            r is Ok ==> final(self).m() < old(self).m(),
    {
        if self.cur.same(&t) {
            self.bump()
        } else {
            let msg = String::from_str("Expected ").concat(t.debug_string().as_str()).concat(
                ", got ",
            ).concat(self.cur.debug_string().as_str());
            Err(LangError::Parse(msg))
        }
    }

    fn expect_ident(&mut self) -> (r: Result<String, LangError>)
        requires
            old(self).wf(),
        ensures
            final(self).wf(),
            final(self).input() == old(self).input(),
            answers(r, final(self).state(), p_expect_ident(old(self).input(), old(self).state())),
            r is Ok ==> final(self).m() < old(self).m(),
    {
        match &self.cur {
            Token::Ident(s) => {
                let v = s.clone();
                self.bump()?;
                Ok(v)
            },
            _ => {
                let msg = String::from_str("Expected identifier, got ").concat(
                    self.cur.debug_string().as_str(),
                );
                Err(LangError::Parse(msg))
            },
        }
    }

    /// expr := equality
    pub fn parse_expr(&mut self) -> (r: Result<Expr, LangError>)
        requires
            old(self).wf(),
        ensures
            final(self).wf(),
            final(self).input() == old(self).input(),
            answers(r, final(self).state(), p_expr(old(self).input(), old(self).state())),
            r is Ok ==> final(self).m() <= old(self).m(),
        decreases old(self).m(), 21int,
    {
        self.parse_level(0)
    }

    /// An operand of the binary operators of level `k`.
    fn parse_operand(&mut self, k: u8) -> (r: Result<Expr, LangError>)
        requires
            old(self).wf(),
            k <= 3,
        ensures
            final(self).wf(),
            final(self).input() == old(self).input(),
            answers(r, final(self).state(), p_operand(k as nat, old(self).input(), old(self).state())),
            r is Ok ==> final(self).m() <= old(self).m(),
        decreases old(self).m(), 18 - 3 * (k as int),
    {
        if k < 3 {
            self.parse_level(k + 1)
        } else {
            self.parse_unary()
        }
    }

    /// The binary operators of level `k` (0: `==` `!=`, 1: `<` `<=` `>` `>=`,
    /// 2: `+` `-`, 3: `*` `/` `%`), left-associative.
    fn parse_level(&mut self, k: u8) -> (r: Result<Expr, LangError>)
        requires
            old(self).wf(),
            k <= 3,
        ensures
            final(self).wf(),
            final(self).input() == old(self).input(),
            answers(r, final(self).state(), p_binary(k as nat, old(self).input(), old(self).state())),
            r is Ok ==> final(self).m() <= old(self).m(),
        decreases old(self).m(), 20 - 3 * (k as int),
    {
        let e = self.parse_operand(k)?;
        self.parse_level_tail(k, e)
    }

    /// The rest of level `k` after the left operand `e`.
    fn parse_level_tail(&mut self, k: u8, left: Expr) -> (r: Result<Expr, LangError>)
        requires
            old(self).wf(),
            k <= 3,
        ensures
            final(self).wf(),
            final(self).input() == old(self).input(),
            answers(
                r,
                final(self).state(),
                p_binary_tail(k as nat, old(self).input(), old(self).state(), left@),
            ),
            r is Ok ==> final(self).m() <= old(self).m(),
        decreases old(self).m(), 19 - 3 * (k as int),
    {
        let ghost s = self.input();
        let ghost goal = p_binary_tail(k as nat, s, self.state(), left@);
        let ghost e0 = left@;
        let ghost m0 = self.m();
        let mut e = left;
        loop
            invariant
                self.wf(),
                self.input() == s,
                k <= 3,
                s == old(self).input(),
                p_binary_tail(k as nat, s, self.state(), e@) == goal,
                goal == p_binary_tail(k as nat, old(self).input(), old(self).state(), e0),
                e0 == left@,
                self.m() <= m0,
                m0 == old(self).m(),
            decreases self.m(),
        {
            let op = match binop_of_token(k, &self.cur) {
                None => return Ok(e),
                Some(op) => op,
            };
            let ghost st = self.state();
            self.bump()?;
            let rhs = self.parse_operand(k)?;
            e = make_binop(op, e, rhs);
        }
    }
    /// unary := (& (mut) unary) | (- unary) | postfix
    fn parse_unary(&mut self) -> (r: Result<Expr, LangError>)
        requires
            old(self).wf(),
        ensures
            final(self).wf(),
            final(self).input() == old(self).input(),
            answers(r, final(self).state(), p_unary(old(self).input(), old(self).state())),
            r is Ok ==> final(self).m() <= old(self).m(),
        decreases old(self).m(), 8int,
    {
        if matches!(self.cur, Token::Amp) {
            self.bump()?;
            let mut_ = if matches!(self.cur, Token::Mut) {
                self.bump()?;
                true
            } else {
                false
            };
            let inner = self.parse_unary()?;
            return Ok(Expr::Borrow { mut_, expr: Box::new(inner) });
        }
        if matches!(self.cur, Token::Minus) {
            self.bump()?;
            let inner = self.parse_unary()?;
            return Ok(Expr::Neg { expr: Box::new(inner) });
        }
        self.parse_postfix()
    }

    /// postfix := primary ( (args) | [expr] )*
    fn parse_postfix(&mut self) -> (r: Result<Expr, LangError>)
        requires
            old(self).wf(),
        ensures
            final(self).wf(),
            final(self).input() == old(self).input(),
            answers(r, final(self).state(), p_postfix(old(self).input(), old(self).state())),
            r is Ok ==> final(self).m() <= old(self).m(),
        decreases old(self).m(), 7int,
    {
        let left = self.parse_primary()?;
        self.parse_postfix_with_left(left)
    }

    /// One or more expressions separated by commas.
    #[verifier::rlimit(50)]
    fn parse_list(&mut self) -> (r: Result<Vec<Expr>, LangError>)
        requires
            old(self).wf(),
        ensures
            final(self).wf(),
            final(self).input() == old(self).input(),
            match p_list(old(self).input(), old(self).state()) {
                Ok((v, st)) => r matches Ok(x) && exprs_view(x@) == v && final(self).state() == st,
                Err(e) => r matches Err(x) && x@ == e,
            },
            r is Ok ==> final(self).m() <= old(self).m(),
        decreases old(self).m(), 23int,
    {
        let ghost s = self.input();
        let first = self.parse_expr()?;
        let mut items: Vec<Expr> = Vec::new();
        items.push(first);
        proof {
            lemma_exprs_push(Seq::empty(), first);
            assert(Seq::<Expr>::empty().push(first) == items@);
        }
        let ghost goal = p_list_more(s, self.state(), exprs_view(items@));
        let ghost m0 = old(self).m();
        while matches!(self.cur, Token::Comma)
            invariant
                self.wf(),
                self.input() == s,
                s == old(self).input(),
                p_list_more(s, self.state(), exprs_view(items@)) == goal,
                goal == p_list(old(self).input(), old(self).state()),
                self.m() <= m0,
                m0 == old(self).m(),
            decreases self.m(),
        {
            self.bump()?;
            let e = self.parse_expr()?;
            proof {
                lemma_exprs_push(items@, e);
            }
            items.push(e);
        }
        Ok(items)
    }

    /// A call's arguments in brackets, after the callee.
    #[verifier::spinoff_prover]
    #[verifier::rlimit(50)]
    fn parse_call_suffix(&mut self, callee: String) -> (r: Result<Expr, LangError>)
        requires
            old(self).wf(),
            old(self).state().cur == SpecToken::LParen,
        ensures
            final(self).wf(),
            final(self).input() == old(self).input(),
            answers(r, final(self).state(), p_call_suffix(old(self).input(), old(self).state(), callee@)),
            r is Ok ==> final(self).m() < old(self).m(),
        decreases old(self).m(), 3int,
    {
        self.bump()?;
        let args = if matches!(self.cur, Token::RParen) {
            proof {
                lemma_exprs_push(Seq::empty(), Expr::Int(0));
            }
            Vec::new()
        } else {
            self.parse_list()?
        };
        self.expect(Token::RParen)?;
        Ok(Expr::Call { callee, args })
    }

    /// An index in square brackets after the expression `base`.
    #[verifier::spinoff_prover]
    #[verifier::rlimit(50)]
    fn parse_index_suffix(&mut self, base: Expr) -> (r: Result<Expr, LangError>)
        requires
            old(self).wf(),
            old(self).state().cur == SpecToken::LBracket,
        ensures
            final(self).wf(),
            final(self).input() == old(self).input(),
            answers(r, final(self).state(), p_index_suffix(old(self).input(), old(self).state(), base@)),
            r is Ok ==> final(self).m() < old(self).m(),
        decreases old(self).m(), 3int,
    {
        self.bump()?;
        let idx = self.parse_expr()?;
        self.expect(Token::RBracket)?;
        Ok(Expr::Index { base: Box::new(base), index: Box::new(idx) })
    }

    /// Calls and indexing after the expression `e`.
    fn parse_postfix_with_left(&mut self, left: Expr) -> (r: Result<Expr, LangError>)
        requires
            old(self).wf(),
        ensures
            final(self).wf(),
            final(self).input() == old(self).input(),
            answers(r, final(self).state(), p_postfix_tail(old(self).input(), old(self).state(), left@)),
            r is Ok ==> final(self).m() <= old(self).m(),
        decreases old(self).m(), 6int,
    {
        let ghost s = self.input();
        let ghost goal = p_postfix_tail(s, self.state(), left@);
        let ghost e0 = left@;
        let ghost m0 = self.m();
        let mut e = left;
        loop
            invariant
                self.wf(),
                self.input() == s,
                s == old(self).input(),
                p_postfix_tail(s, self.state(), e@) == goal,
                goal == p_postfix_tail(old(self).input(), old(self).state(), e0),
                e0 == left@,
                self.m() <= m0,
                m0 == old(self).m(),
            decreases self.m(),
        {
            if matches!(self.cur, Token::LParen) {
                let callee = match &e {
                    Expr::Ident(name) => name.clone(),
                    _ => return Err(parse_error("Call target must be identifier")),
                };
                e = self.parse_call_suffix(callee)?;
            } else if matches!(self.cur, Token::LBracket) {
                e = self.parse_index_suffix(e)?;
            } else {
                return Ok(e);
            }
        }
    }

    /// primary := int | str | true | false | ident | vec | (expr)
    fn parse_primary(&mut self) -> (r: Result<Expr, LangError>)
        requires
            old(self).wf(),
        ensures
            final(self).wf(),
            final(self).input() == old(self).input(),
            answers(r, final(self).state(), p_primary(old(self).input(), old(self).state())),
            r is Ok ==> final(self).m() <= old(self).m(),
        decreases old(self).m(), 5int,
    {
        match &self.cur {
            Token::Int(n) => {
                let v = *n;
                self.bump()?;
                Ok(Expr::Int(v))
            },
            Token::Str(x) => {
                let v = x.clone();
                self.bump()?;
                Ok(Expr::Str(v))
            },
            Token::True => {
                self.bump()?;
                Ok(Expr::Bool(true))
            },
            Token::False => {
                self.bump()?;
                Ok(Expr::Bool(false))
            },
            Token::Ident(x) => {
                let v = x.clone();
                self.bump()?;
                Ok(Expr::Ident(v))
            },
            Token::LBracket => self.parse_vec_lit(),
            Token::LParen => {
                self.bump()?;
                let e = self.parse_expr()?;
                self.expect(Token::RParen)?;
                Ok(e)
            },
            _ => {
                let msg = String::from_str("Unexpected token in expr: ").concat(
                    self.cur.debug_string().as_str(),
                );
                Err(LangError::Parse(msg))
            },
        }
    }

    /// vec := [ ] | [ expr (, expr)* ]
    fn parse_vec_lit(&mut self) -> (r: Result<Expr, LangError>)
        requires
            old(self).wf(),
        ensures
            final(self).wf(),
            final(self).input() == old(self).input(),
            answers(r, final(self).state(), p_vec_lit(old(self).input(), old(self).state())),
            r is Ok ==> final(self).m() <= old(self).m(),
        decreases old(self).m(), 4int,
    {
        self.expect(Token::LBracket)?;
        let items = if matches!(self.cur, Token::RBracket) {
            proof {
                lemma_exprs_push(Seq::empty(), Expr::Int(0));
            }
            Vec::new()
        } else {
            self.parse_list()?
        };
        self.expect(Token::RBracket)?;
        Ok(Expr::VecLit(items))
    }

    /// The rest of an expression whose first primary `left` has been read.
    fn parse_expr_with_left(&mut self, left: Expr) -> (r: Result<Expr, LangError>)
        requires
            old(self).wf(),
        ensures
            final(self).wf(),
            final(self).input() == old(self).input(),
            answers(r, final(self).state(), p_expr_with_left(old(self).input(), old(self).state(), left@)),
            r is Ok ==> final(self).m() <= old(self).m(),
    {
        let e = self.parse_postfix_with_left(left)?;
        let e = self.parse_level_tail(3, e)?;
        let e = self.parse_level_tail(2, e)?;
        let e = self.parse_level_tail(1, e)?;
        self.parse_level_tail(0, e)
    }
    /// let := let ident = expr ;
    fn parse_let(&mut self) -> (r: Result<Stmt, LangError>)
        requires
            old(self).wf(),
        ensures
            final(self).wf(),
            final(self).input() == old(self).input(),
            answers(r, final(self).state(), p_let(old(self).input(), old(self).state())),
            r is Ok ==> final(self).m() < old(self).m(),
    {
        self.expect(Token::Let)?;
        let name = self.expect_ident()?;
        self.expect(Token::Eq)?;
        let expr = self.parse_expr()?;
        self.expect(Token::Semi)?;
        Ok(Stmt::Let { name, expr })
    }

    /// An expression followed by `;`.
    fn parse_expr_semi(&mut self) -> (r: Result<Expr, LangError>)
        requires
            old(self).wf(),
        ensures
            final(self).wf(),
            final(self).input() == old(self).input(),
            answers(r, final(self).state(), p_expr_semi(old(self).input(), old(self).state())),
            r is Ok ==> final(self).m() < old(self).m(),
    {
        let e = self.parse_expr()?;
        self.expect(Token::Semi)?;
        Ok(e)
    }

    /// print := print expr ;
    fn parse_print(&mut self) -> (r: Result<Stmt, LangError>)
        requires
            old(self).wf(),
        ensures
            final(self).wf(),
            final(self).input() == old(self).input(),
            answers(r, final(self).state(), p_print(old(self).input(), old(self).state())),
            r is Ok ==> final(self).m() < old(self).m(),
    {
        self.expect(Token::Print)?;
        let expr = self.parse_expr_semi()?;
        Ok(Stmt::Print { expr })
    }

    /// return := return expr ;
    fn parse_return(&mut self) -> (r: Result<Stmt, LangError>)
        requires
            old(self).wf(),
        ensures
            final(self).wf(),
            final(self).input() == old(self).input(),
            answers(r, final(self).state(), p_return(old(self).input(), old(self).state())),
            r is Ok ==> final(self).m() < old(self).m(),
    {
        self.expect(Token::Return)?;
        let e = self.parse_expr_semi()?;
        Ok(Stmt::Return(e))
    }

    /// An assignment or an expression statement that starts with the identifier `name`.
    fn parse_ident_stmt(&mut self, name: String) -> (r: Result<Stmt, LangError>)
        requires
            old(self).wf(),
            old(self).state().cur == SpecToken::Ident(name@),
        ensures
            final(self).wf(),
            final(self).input() == old(self).input(),
            answers(r, final(self).state(), p_ident_stmt(old(self).input(), old(self).state(), name@)),
            r is Ok ==> final(self).m() < old(self).m(),
    {
        self.bump()?;
        if matches!(self.cur, Token::Eq) {
            self.bump()?;
            let expr = self.parse_expr_semi()?;
            Ok(Stmt::Assign { name, expr })
        } else {
            let left = Expr::Ident(name);
            let expr = self.parse_expr_with_left(left)?;
            self.expect(Token::Semi)?;
            Ok(Stmt::ExprStmt { expr })
        }
    }

    /// stmt := let | print | for | return | if | assignment | expr ;
    pub fn parse_stmt(&mut self) -> (r: Result<Stmt, LangError>)
        requires
            old(self).wf(),
        ensures
            final(self).wf(),
            final(self).input() == old(self).input(),
            answers(r, final(self).state(), p_stmt(old(self).input(), old(self).state())),
            r is Ok ==> final(self).m() < old(self).m(),
        decreases old(self).m(), 1int,
    {
        match &self.cur {
            Token::Let => self.parse_let(),
            Token::Print => self.parse_print(),
            Token::For => self.parse_for(),
            Token::Return => self.parse_return(),
            Token::If => self.parse_if(),
            Token::Ident(x) => {
                let name = x.clone();
                self.parse_ident_stmt(name)
            },
            _ => {
                let expr = self.parse_expr_semi()?;
                Ok(Stmt::ExprStmt { expr })
            },
        }
    }

    /// for := for ident in expr block
    fn parse_for(&mut self) -> (r: Result<Stmt, LangError>)
        requires
            old(self).wf(),
        ensures
            final(self).wf(),
            final(self).input() == old(self).input(),
            answers(r, final(self).state(), p_for(old(self).input(), old(self).state())),
            r is Ok ==> final(self).m() < old(self).m(),
        decreases old(self).m(), 0int,
    {
        self.expect(Token::For)?;
        let var = self.expect_ident()?;
        self.expect(Token::In)?;
        let iter = self.parse_expr()?;
        let body = self.parse_block()?;
        Ok(Stmt::For { var, iter, body })
    }

    /// An optional `else block`.
    fn parse_else(&mut self) -> (r: Result<Vec<Stmt>, LangError>)
        requires
            old(self).wf(),
        ensures
            final(self).wf(),
            final(self).input() == old(self).input(),
            match p_else(old(self).input(), old(self).state()) {
                Ok((v, st)) => r matches Ok(x) && stmts_view(x@) == v && final(self).state() == st,
                Err(e) => r matches Err(x) && x@ == e,
            },
            r is Ok ==> final(self).m() <= old(self).m(),
        decreases old(self).m(), 0int,
    {
        if matches!(self.cur, Token::Else) {
            self.bump()?;
            self.parse_block()
        } else {
            proof {
                lemma_stmts_push(Seq::empty(), Stmt::Return(Expr::Int(0)));
            }
            Ok(Vec::new())
        }
    }

    /// if := if expr block ( else block )?
    #[verifier::spinoff_prover]
    fn parse_if(&mut self) -> (r: Result<Stmt, LangError>)
        requires
            old(self).wf(),
        ensures
            final(self).wf(),
            final(self).input() == old(self).input(),
            answers(r, final(self).state(), p_if(old(self).input(), old(self).state())),
            r is Ok ==> final(self).m() < old(self).m(),
        decreases old(self).m(), 0int,
    {
        self.expect(Token::If)?;
        let cond = self.parse_expr()?;
        let then_body = self.parse_block()?;
        let else_body = self.parse_else()?;
        Ok(Stmt::If { cond, then_body, else_body })
    }

    /// block := { stmt* }
    #[verifier::spinoff_prover]
    #[verifier::rlimit(50)]
    fn parse_block(&mut self) -> (r: Result<Vec<Stmt>, LangError>)
        requires
            old(self).wf(),
        ensures
            final(self).wf(),
            final(self).input() == old(self).input(),
            match p_block(old(self).input(), old(self).state()) {
                Ok((v, st)) => r matches Ok(x) && stmts_view(x@) == v && final(self).state() == st,
                Err(e) => r matches Err(x) && x@ == e,
            },
            r is Ok ==> final(self).m() < old(self).m(),
        decreases old(self).m(), 3int,
    {
        let ghost s = self.input();
        self.expect(Token::LBrace)?;
        let mut stmts: Vec<Stmt> = Vec::new();
        proof {
            lemma_stmts_push(Seq::empty(), Stmt::Return(Expr::Int(0)));
        }
        let ghost goal = p_block_body(s, self.state(), Seq::empty());
        let ghost m0 = old(self).m();
        loop
            invariant
                self.wf(),
                self.input() == s,
                s == old(self).input(),
                p_block_body(s, self.state(), stmts_view(stmts@)) == goal,
                goal == p_block(old(self).input(), old(self).state()),
                self.m() < m0,
                m0 == old(self).m(),
            decreases self.m(),
        {
            if matches!(self.cur, Token::RBrace) {
                self.expect(Token::RBrace)?;
                return Ok(stmts);
            }
            if matches!(self.cur, Token::Eof) {
                return Err(parse_error("Unclosed block"));
            }
            let st = self.parse_stmt()?;
            proof {
                lemma_stmts_push(stmts@, st);
            }
            stmts.push(st);
        }
    }
    /// params := ( ident (, ident)* )?
    #[verifier::rlimit(50)]
    fn parse_params(&mut self) -> (r: Result<Vec<String>, LangError>)
        requires
            old(self).wf(),
        ensures
            final(self).wf(),
            final(self).input() == old(self).input(),
            match p_params(old(self).input(), old(self).state()) {
                Ok((v, st)) => r matches Ok(x) && strings_view(x@) == v && final(self).state() == st,
                Err(e) => r matches Err(x) && x@ == e,
            },
            r is Ok ==> final(self).m() <= old(self).m(),
    {
        let ghost s = self.input();
        let mut params: Vec<String> = Vec::new();
        if matches!(self.cur, Token::RParen) {
            proof {
                assert(strings_view(params@) =~= Seq::<Seq<char>>::empty());
            }
            return Ok(params);
        }
        let first = self.expect_ident()?;
        proof {
            lemma_strings_push(Seq::empty(), first);
            assert(Seq::<String>::empty().push(first) =~= params@.push(first));
        }
        params.push(first);
        let ghost goal = p_params_more(s, self.state(), strings_view(params@));
        while matches!(self.cur, Token::Comma)
            invariant
                self.wf(),
                self.input() == s,
                s == old(self).input(),
                p_params_more(s, self.state(), strings_view(params@)) == goal,
                goal == p_params(old(self).input(), old(self).state()),
                self.m() < old(self).m(),
            decreases self.m(),
        {
            self.bump()?;
            let p = self.expect_ident()?;
            proof {
                lemma_strings_push(params@, p);
            }
            params.push(p);
        }
        Ok(params)
    }

    /// item := fn | stmt
    fn parse_item(&mut self) -> (r: Result<Item, LangError>)
        requires
            old(self).wf(),
        ensures
            final(self).wf(),
            final(self).input() == old(self).input(),
            answers(r, final(self).state(), p_item(old(self).input(), old(self).state())),
            r is Ok ==> final(self).m() < old(self).m(),
    {
        if matches!(self.cur, Token::Fn) {
            Ok(Item::Fn(self.parse_fn_def()?))
        } else {
            Ok(Item::Stmt(self.parse_stmt()?))
        }
    }

    /// fn := fn ident ( params ) block
    #[verifier::spinoff_prover]
    fn parse_fn_def(&mut self) -> (r: Result<FnDef, LangError>)
        requires
            old(self).wf(),
        ensures
            final(self).wf(),
            final(self).input() == old(self).input(),
            answers(r, final(self).state(), p_fn_def(old(self).input(), old(self).state())),
            r is Ok ==> final(self).m() < old(self).m(),
    {
        let ghost s = self.input();
        self.expect(Token::Fn)?;
        let name = self.expect_ident()?;
        self.expect(Token::LParen)?;
        let params = self.parse_params()?;
        self.expect(Token::RParen)?;
        let body = self.parse_block()?;
        Ok(FnDef { name, params, body })
    }

    /// Parses the whole program: function definitions and statements up to the end
    /// of the input.
    #[verifier::rlimit(50)]
    pub fn parse_program(&mut self) -> (r: Result<Program, LangError>)
        requires
            old(self).wf(),
        ensures
            final(self).wf(),
            match p_items(old(self).input(), old(self).state(), Seq::empty()) {
                Ok((items, _)) => r matches Ok(p) && p@ == items,
                Err(e) => r matches Err(x) && x@ == e,
            },
    {
        let ghost s = self.input();
        let mut items: Vec<Item> = Vec::new();
        proof {
            lemma_items_push(Seq::empty(), Item::Stmt(Stmt::Return(Expr::Int(0))));
        }
        let ghost goal = p_items(s, self.state(), Seq::empty());
        while !matches!(self.cur, Token::Eof)
            invariant
                self.wf(),
                self.input() == s,
                s == old(self).input(),
                p_items(s, self.state(), items_view(items@)) == goal,
                goal == p_items(old(self).input(), old(self).state(), Seq::empty()),
            decreases self.m(),
        {
            let it = self.parse_item()?;
            proof {
                lemma_items_push(items@, it);
            }
            items.push(it);
        }
        Ok(Program { items })
    }
}

/// Reads a whole program from its source text (the first half of running a script).
pub fn parse_source(src: &str) -> (r: Result<Program, LangError>)
    ensures
        res_view(r) == spec_parse(src.spec_bytes()),
{
    let mut p = Parser::new(src)?;
    p.parse_program()
}

} // verus!

verus! {

/// Calls and indexing never move the parser back.
proof fn lemma_postfix_tail_measure(s: Seq<u8>, st: PState, e: SpecExpr)
    ensures
        p_postfix_tail(s, st, e) matches Ok((_, st2)) ==> measure(s, st2) <= measure(s, st),
    decreases measure(s, st),
{
    if st.cur == SpecToken::LParen {
        if let SpecExpr::Ident(callee) = e {
            if let Ok((e2, st2)) = p_call_suffix(s, st, callee) {
                if measure(s, st2) < measure(s, st) {
                    lemma_postfix_tail_measure(s, st2, e2);
                }
            }
        }
    } else if st.cur == SpecToken::LBracket {
        if let Ok((e2, st2)) = p_index_suffix(s, st, e) {
            if measure(s, st2) < measure(s, st) {
                lemma_postfix_tail_measure(s, st2, e2);
            }
        }
    }
}

/// The operators of a level never move the parser back.
proof fn lemma_binary_tail_measure(k: nat, s: Seq<u8>, st: PState, e: SpecExpr)
    ensures
        p_binary_tail(k, s, st, e) matches Ok((_, st2)) ==> measure(s, st2) <= measure(s, st),
    decreases measure(s, st),
{
    if let Some(op) = binop_of(k, st.cur) {
        if let Ok(st1) = p_bump(s, st) {
            if let Ok((rhs, st2)) = p_operand(k, s, st1) {
                if measure(s, st2) < measure(s, st) {
                    lemma_binary_tail_measure(k, s, st2, mk_binop(op, e, rhs));
                }
            }
        }
    }
}

/// An expression that starts with an identifier: reading the identifier and then
/// the rest is reading the expression.
proof fn lemma_expr_from_ident(s: Seq<u8>, st: PState, n: Seq<char>, st1: PState)
    requires
        st.cur == SpecToken::Ident(n),
        p_bump(s, st) == Ok::<PState, SpecError>(st1),
    ensures
        p_expr(s, st) == p_expr_with_left(s, st1, SpecExpr::Ident(n)),
{
    lemma_bump(s, st);
    let id = SpecExpr::Ident(n);
    assert(p_primary(s, st) == Ok::<(SpecExpr, PState), SpecError>((id, st1)));
    assert(p_postfix(s, st) == p_postfix_tail(s, st1, id));
    assert(p_unary(s, st) == p_postfix(s, st));
    assert(p_operand(3, s, st) == p_unary(s, st));
    lemma_postfix_tail_measure(s, st1, id);
    match p_postfix_tail(s, st1, id) {
        Err(x) => {
            assert(p_binary(3, s, st) == Err::<(SpecExpr, PState), SpecError>(x));
            assert(p_binary(2, s, st) == Err::<(SpecExpr, PState), SpecError>(x));
            assert(p_binary(1, s, st) == Err::<(SpecExpr, PState), SpecError>(x));
            assert(p_binary(0, s, st) == Err::<(SpecExpr, PState), SpecError>(x));
        },
        Ok((e1, sa)) => {
            lemma_binary_tail_measure(3, s, sa, e1);
            assert(p_binary(3, s, st) == p_binary_tail(3, s, sa, e1));
            assert(p_operand(2, s, st) == p_binary(3, s, st));
            match p_binary_tail(3, s, sa, e1) {
                Err(x) => {
                    assert(p_binary(2, s, st) == Err::<(SpecExpr, PState), SpecError>(x));
                    assert(p_binary(1, s, st) == Err::<(SpecExpr, PState), SpecError>(x));
                    assert(p_binary(0, s, st) == Err::<(SpecExpr, PState), SpecError>(x));
                },
                Ok((e2, sb)) => {
                    lemma_binary_tail_measure(2, s, sb, e2);
                    assert(p_binary(2, s, st) == p_binary_tail(2, s, sb, e2));
                    assert(p_operand(1, s, st) == p_binary(2, s, st));
                    match p_binary_tail(2, s, sb, e2) {
                        Err(x) => {
                            assert(p_binary(1, s, st) == Err::<(SpecExpr, PState), SpecError>(x));
                            assert(p_binary(0, s, st) == Err::<(SpecExpr, PState), SpecError>(x));
                        },
                        Ok((e3, sc)) => {
                            lemma_binary_tail_measure(1, s, sc, e3);
                            assert(p_binary(1, s, st) == p_binary_tail(1, s, sc, e3));
                            assert(p_operand(0, s, st) == p_binary(1, s, st));
                            match p_binary_tail(1, s, sc, e3) {
                                Err(x) => {
                                    assert(p_binary(0, s, st) == Err::<(SpecExpr, PState), SpecError>(x));
                                },
                                Ok((e4, sd)) => {
                                    assert(p_binary(0, s, st) == p_binary_tail(0, s, sd, e4));
                                },
                            }
                        },
                    }
                },
            }
        },
    }
}

/// A statement that starts with an identifier not followed by `=` parses as the
/// expression statement `expr ;` that `parse_expr` reads from the same place.
pub proof fn law_ident_stmt_parses_as_expr(s: Seq<u8>, st: PState, n: Seq<char>)
    requires
        st.cur == SpecToken::Ident(n),
        p_bump(s, st) matches Ok(st1) ==> st1.cur != SpecToken::Eq,
    ensures
        p_stmt(s, st) == (match p_expr_semi(s, st) {
            Err(x) => Err(x),
            Ok((expr, st1)) => Ok((SpecStmt::ExprStmt { expr }, st1)),
        }),
{
    match p_bump(s, st) {
        Err(x) => {
            assert(p_primary(s, st) == Err::<(SpecExpr, PState), SpecError>(x));
            assert(p_postfix(s, st) == Err::<(SpecExpr, PState), SpecError>(x));
            assert(p_unary(s, st) == Err::<(SpecExpr, PState), SpecError>(x));
            assert(p_binary(3, s, st) == Err::<(SpecExpr, PState), SpecError>(x));
            assert(p_binary(2, s, st) == Err::<(SpecExpr, PState), SpecError>(x));
            assert(p_binary(1, s, st) == Err::<(SpecExpr, PState), SpecError>(x));
            assert(p_binary(0, s, st) == Err::<(SpecExpr, PState), SpecError>(x));
        },
        Ok(st1) => {
            lemma_expr_from_ident(s, st, n, st1);
        },
    }
}

/// The operand that follows an operator token of level `k`: the token is read,
/// then an operand of that level, which must move the parser forward.
pub open spec fn next_operand(k: nat, s: Seq<u8>, st: PState) -> PRes<SpecExpr> {
    match p_bump(s, st) {
        Err(x) => Err(x),
        Ok(st1) => match p_operand(k, s, st1) {
            Err(x) => Err(x),
            Ok((rhs, st2)) => if measure(s, st2) < measure(s, st) {
                Ok((rhs, st2))
            } else {
                stalled()
            },
        },
    }
}

/// Each operator token builds the node of its own operator: after the left
/// operand `e`, the token `==` builds `Eq`, `!=` `Ne`, `<` `Lt`, `<=` `Le`, `>`
/// `Gt`, `>=` `Ge`, `+` `Add`, `-` `Sub`, `*` `Mul`, `/` `Div` and `%` `Mod`, of
/// `e` and the next operand, and parsing goes on at the same level; a token that
/// is no operator of the level ends it, leaving `e` as it is.
pub proof fn law_operator_tokens(s: Seq<u8>, st: PState, e: SpecExpr)
    ensures
        st.cur == SpecToken::EqEq ==> p_binary_tail(0, s, st, e) == (match next_operand(0, s, st) {
            Err(x) => Err(x),
            Ok((rhs, st2)) => p_binary_tail(0, s, st2, SpecExpr::Eq { left: bx(e), right: bx(rhs) }),
        }),
        st.cur == SpecToken::NotEq ==> p_binary_tail(0, s, st, e) == (match next_operand(0, s, st) {
            Err(x) => Err(x),
            Ok((rhs, st2)) => p_binary_tail(0, s, st2, SpecExpr::Ne { left: bx(e), right: bx(rhs) }),
        }),
        st.cur == SpecToken::Lt ==> p_binary_tail(1, s, st, e) == (match next_operand(1, s, st) {
            Err(x) => Err(x),
            Ok((rhs, st2)) => p_binary_tail(1, s, st2, SpecExpr::Lt { left: bx(e), right: bx(rhs) }),
        }),
        st.cur == SpecToken::Le ==> p_binary_tail(1, s, st, e) == (match next_operand(1, s, st) {
            Err(x) => Err(x),
            Ok((rhs, st2)) => p_binary_tail(1, s, st2, SpecExpr::Le { left: bx(e), right: bx(rhs) }),
        }),
        st.cur == SpecToken::Gt ==> p_binary_tail(1, s, st, e) == (match next_operand(1, s, st) {
            Err(x) => Err(x),
            Ok((rhs, st2)) => p_binary_tail(1, s, st2, SpecExpr::Gt { left: bx(e), right: bx(rhs) }),
        }),
        st.cur == SpecToken::Ge ==> p_binary_tail(1, s, st, e) == (match next_operand(1, s, st) {
            Err(x) => Err(x),
            Ok((rhs, st2)) => p_binary_tail(1, s, st2, SpecExpr::Ge { left: bx(e), right: bx(rhs) }),
        }),
        st.cur == SpecToken::Plus ==> p_binary_tail(2, s, st, e) == (match next_operand(2, s, st) {
            Err(x) => Err(x),
            Ok((rhs, st2)) => p_binary_tail(2, s, st2, SpecExpr::Add { left: bx(e), right: bx(rhs) }),
        }),
        st.cur == SpecToken::Minus ==> p_binary_tail(2, s, st, e) == (match next_operand(2, s, st) {
            Err(x) => Err(x),
            Ok((rhs, st2)) => p_binary_tail(2, s, st2, SpecExpr::Sub { left: bx(e), right: bx(rhs) }),
        }),
        st.cur == SpecToken::Star ==> p_binary_tail(3, s, st, e) == (match next_operand(3, s, st) {
            Err(x) => Err(x),
            Ok((rhs, st2)) => p_binary_tail(3, s, st2, SpecExpr::Mul { left: bx(e), right: bx(rhs) }),
        }),
        st.cur == SpecToken::Slash ==> p_binary_tail(3, s, st, e) == (match next_operand(3, s, st) {
            Err(x) => Err(x),
            Ok((rhs, st2)) => p_binary_tail(3, s, st2, SpecExpr::Div { left: bx(e), right: bx(rhs) }),
        }),
        st.cur == SpecToken::Percent ==> p_binary_tail(3, s, st, e) == (match next_operand(3, s, st) {
            Err(x) => Err(x),
            Ok((rhs, st2)) => p_binary_tail(3, s, st2, SpecExpr::Mod { left: bx(e), right: bx(rhs) }),
        }),
        (st.cur != SpecToken::EqEq && st.cur != SpecToken::NotEq) ==> p_binary_tail(0, s, st, e) == Ok::<(SpecExpr, PState), SpecError>((e, st)),
        (st.cur != SpecToken::Lt && st.cur != SpecToken::Le && st.cur != SpecToken::Gt && st.cur != SpecToken::Ge) ==> p_binary_tail(1, s, st, e) == Ok::<(SpecExpr, PState), SpecError>((e, st)),
        (st.cur != SpecToken::Plus && st.cur != SpecToken::Minus) ==> p_binary_tail(2, s, st, e) == Ok::<(SpecExpr, PState), SpecError>((e, st)),
        (st.cur != SpecToken::Star && st.cur != SpecToken::Slash && st.cur != SpecToken::Percent) ==> p_binary_tail(3, s, st, e) == Ok::<(SpecExpr, PState), SpecError>((e, st)),
{
}

/// Prefix operators: `-` builds `Neg` of the unary expression after it; `&` builds
/// a shared `Borrow`, and `& mut` a mutable one, of the unary expression after
/// them; any other token starts a postfix expression.
pub proof fn law_prefix_operators(s: Seq<u8>, st: PState)
    ensures
        st.cur == SpecToken::Minus ==> p_unary(s, st) == (match p_bump(s, st) {
            Err(x) => Err(x),
            Ok(st1) => match p_unary(s, st1) {
                Err(x) => Err(x),
                Ok((inner, st2)) => Ok((SpecExpr::Neg { expr: bx(inner) }, st2)),
            },
        }),
        st.cur == SpecToken::Amp ==> p_unary(s, st) == (match p_bump(s, st) {
            Err(x) => Err(x),
            Ok(st1) => if st1.cur == SpecToken::Mut {
                match p_bump(s, st1) {
                    Err(x) => Err(x),
                    Ok(st2) => match p_unary(s, st2) {
                        Err(x) => Err(x),
                        Ok((inner, st3)) => Ok((SpecExpr::Borrow { mut_: true, expr: bx(inner) }, st3)),
                    },
                }
            } else {
                match p_unary(s, st1) {
                    Err(x) => Err(x),
                    Ok((inner, st3)) => Ok((SpecExpr::Borrow { mut_: false, expr: bx(inner) }, st3)),
                }
            },
        }),
        (st.cur != SpecToken::Minus && st.cur != SpecToken::Amp) ==> p_unary(s, st) == p_postfix(s, st),
{
}

} // verus!
