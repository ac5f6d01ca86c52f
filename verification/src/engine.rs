//! The DSL grammar engine. The grammar is a PEG over bytes: ordered
//! choice commits to the first alternative that matches, a failed
//! alternative backtracks without side effects, and every attempt feeds
//! a single deepest-failure diagnostic — the error reported on failure
//! carries the furthest position any alternative reached and the set of
//! rules expected there.
//!
//! This file holds the specification of the whole grammar as total
//! recursive functions over `Seq<u8>`; the executable parser in
//! `parser` is proved to return exactly these values.

use vstd::prelude::*;

use crate::scan::adv_digits;
use crate::scan::adv_trivia;
use crate::scan::adv_word;
use crate::scan::is_digit_b;
use crate::scan::is_word_start_b;
use crate::scan::str_close;
use crate::tree::Rule;
use crate::tree::SpecNode;

verus! {

/// A single DSL syntax error: the deepest position any attempted
/// alternative reached, and the rules that were expected there.
pub struct SpecErr {
    pub pos: int,
    pub expected: Seq<Rule>,
}

/// Outcome of matching one production: a node on success, and in either
/// case the deepest failure seen while trying (used once a caller runs
/// out of alternatives).
pub struct SpecOut {
    pub res: Option<SpecNode>,
    pub err: SpecErr,
}

/// Items matched by a repetition, the position after them, and the
/// deepest failure seen (the attempt that ended the repetition).
pub struct SpecListOut {
    pub items: Seq<SpecNode>,
    pub end: int,
    pub err: SpecErr,
}

/// An error that loses against every real failure when merged.
pub open spec fn neutral() -> SpecErr {
    SpecErr { pos: 0, expected: Seq::<Rule>::empty() }
}

pub open spec fn err1(pos: int, r: Rule) -> SpecErr {
    SpecErr { pos, expected: seq![r] }
}

/// Deepest failure wins; at equal depth the expected sets are joined.
pub open spec fn merge(a: SpecErr, b: SpecErr) -> SpecErr {
    if a.pos > b.pos {
        a
    } else if b.pos > a.pos {
        b
    } else {
        SpecErr { pos: a.pos, expected: a.expected + b.expected }
    }
}

pub open spec fn leaf(r: Rule, start: int, end: int) -> SpecNode {
    SpecNode { rule: r, start, end, children: Seq::<SpecNode>::empty() }
}

pub open spec fn node(r: Rule, start: int, end: int, cs: Seq<SpecNode>) -> SpecNode {
    SpecNode { rule: r, start, end, children: cs }
}

pub open spec fn ok(n: SpecNode, e: SpecErr) -> SpecOut {
    SpecOut { res: Some(n), err: e }
}

pub open spec fn fail(e: SpecErr) -> SpecOut {
    SpecOut { res: None, err: e }
}

// --- keywords ---

pub open spec fn kw_contract() -> Seq<u8> {
    seq!['c' as u8, 'o' as u8, 'n' as u8, 't' as u8, 'r' as u8, 'a' as u8, 'c' as u8, 't' as u8]
}

pub open spec fn kw_function() -> Seq<u8> {
    seq!['f' as u8, 'u' as u8, 'n' as u8, 'c' as u8, 't' as u8, 'i' as u8, 'o' as u8, 'n' as u8]
}

pub open spec fn kw_require() -> Seq<u8> {
    seq!['r' as u8, 'e' as u8, 'q' as u8, 'u' as u8, 'i' as u8, 'r' as u8, 'e' as u8]
}

pub open spec fn kw_true() -> Seq<u8> {
    seq!['t' as u8, 'r' as u8, 'u' as u8, 'e' as u8]
}

pub open spec fn kw_false() -> Seq<u8> {
    seq!['f' as u8, 'a' as u8, 'l' as u8, 's' as u8, 'e' as u8]
}

pub open spec fn kw_int() -> Seq<u8> {
    seq!['i' as u8, 'n' as u8, 't' as u8]
}

pub open spec fn kw_bool() -> Seq<u8> {
    seq!['b' as u8, 'o' as u8, 'o' as u8, 'l' as u8]
}

pub open spec fn kw_string() -> Seq<u8> {
    seq!['s' as u8, 't' as u8, 'r' as u8, 'i' as u8, 'n' as u8, 'g' as u8]
}

pub open spec fn kw_pubkey() -> Seq<u8> {
    seq!['p' as u8, 'u' as u8, 'b' as u8, 'k' as u8, 'e' as u8, 'y' as u8]
}

pub open spec fn kw_sig() -> Seq<u8> {
    seq!['s' as u8, 'i' as u8, 'g' as u8]
}

pub open spec fn kw_bytes() -> Seq<u8> {
    seq!['b' as u8, 'y' as u8, 't' as u8, 'e' as u8, 's' as u8]
}

/// The words naming a parameter or variable type.
pub open spec fn is_type_word(w: Seq<u8>) -> bool {
    w == kw_int() || w == kw_bool() || w == kw_string() || w == kw_pubkey() || w == kw_sig()
        || w == kw_bytes()
}

/// Every reserved word; none of them is an identifier.
pub open spec fn is_keyword(w: Seq<u8>) -> bool {
    w == kw_contract() || w == kw_function() || w == kw_require() || w == kw_true() || w
        == kw_false() || is_type_word(w)
}

/// The word starting at `pos`, as scanned by the lexer.
pub open spec fn word_at(s: Seq<u8>, pos: int) -> Seq<u8> {
    s.subrange(pos, adv_word(s, pos))
}

// --- operators, by precedence level ---

/// The rule tagging an operator leaf of level `k`.
pub open spec fn op_rule(k: int) -> Rule {
    if k == 1 {
        Rule::MulOp
    } else if k == 2 {
        Rule::AddOp
    } else if k == 3 {
        Rule::CmpOp
    } else {
        Rule::BoolOp
    }
}

/// The rule tagging a chain node of level `k`.
pub open spec fn level_rule(k: int) -> Rule {
    if k == 1 {
        Rule::MulExpr
    } else if k == 2 {
        Rule::AddExpr
    } else if k == 3 {
        Rule::CmpExpr
    } else {
        Rule::Expression
    }
}

/// End of an operator of level `k` at `pos`, if one is there. Two-byte
/// operators are tried before one-byte ones.
pub open spec fn op_end(s: Seq<u8>, pos: int, k: int) -> Option<int> {
    if k == 1 {
        if pos < s.len() && (s[pos] == '*' as u8 || s[pos] == '/' as u8 || s[pos] == '%' as u8) {
            Some(pos + 1)
        } else {
            None
        }
    } else if k == 2 {
        if pos < s.len() && (s[pos] == '+' as u8 || s[pos] == '-' as u8) {
            Some(pos + 1)
        } else {
            None
        }
    } else if k == 3 {
        if pos + 1 < s.len() && (s[pos + 1] == '=' as u8) && (s[pos] == '=' as u8 || s[pos] == '!'
            as u8 || s[pos] == '<' as u8 || s[pos] == '>' as u8) {
            Some(pos + 2)
        } else if pos < s.len() && (s[pos] == '<' as u8 || s[pos] == '>' as u8) {
            Some(pos + 1)
        } else {
            None
        }
    } else {
        if pos + 1 < s.len() && ((s[pos] == '&' as u8 && s[pos + 1] == '&' as u8) || (s[pos] == '|'
            as u8 && s[pos + 1] == '|' as u8)) {
            Some(pos + 2)
        } else {
            None
        }
    }
}

/// A unary operator (`-` or `!`, the latter only when it does not begin
/// `!=`) stands at `pos`.
pub open spec fn unary_op_at(s: Seq<u8>, pos: int) -> bool {
    pos < s.len() && (s[pos] == '-' as u8 || (s[pos] == '!' as u8 && !(pos + 1 < s.len() && s[pos
        + 1] == '=' as u8)))
}

/// An assignment `=` (not the first byte of `==`) stands at `pos`.
pub open spec fn assign_op_at(s: Seq<u8>, pos: int) -> bool {
    pos < s.len() && s[pos] == '=' as u8 && !(pos + 1 < s.len() && s[pos + 1] == '=' as u8)
}

pub open spec fn byte_at(s: Seq<u8>, pos: int, b: u8) -> bool {
    pos < s.len() && s[pos] == b
}

/// What a primary expression may begin with.
pub open spec fn primary_expected() -> Seq<Rule> {
    seq![Rule::Number, Rule::StringLit, Rule::KwTrue, Rule::KwFalse, Rule::Identifier, Rule::LParen]
}

/// What a statement may begin with.
pub open spec fn statement_expected() -> Seq<Rule> {
    seq![Rule::KwRequire, Rule::TypeName, Rule::Identifier]
}

/// What a declaration may begin with.
pub open spec fn declaration_expected() -> Seq<Rule> {
    seq![Rule::KwContract, Rule::KwFunction]
}

// --- the grammar ---
//
// Every production consumes the trivia that follows each of its tokens,
// so each function below is entered at a non-trivia position, except
// the two entry points, which skip leading trivia themselves.

/// primary = number | string | `true` | `false` | identifier
///         | `(` expression `)`
pub open spec fn spec_primary(s: Seq<u8>, pos: int) -> SpecOut
    decreases s.len() - pos, 2int,
{
    if pos < s.len() && is_digit_b(s[pos]) {
        let de = adv_digits(s, pos);
        let te = adv_trivia(s, de);
        ok(
            node(Rule::Primary, pos, te, seq![leaf(Rule::Number, pos, de), leaf(Rule::Trivia, de, te)]),
            neutral(),
        )
    } else if pos < s.len() && s[pos] == '"' as u8 {
        match str_close(s, pos + 1) {
            Some(q) => {
                if pos < q <= s.len() {
                    let te = adv_trivia(s, q);
                    ok(
                        node(
                            Rule::Primary,
                            pos,
                            te,
                            seq![leaf(Rule::StringLit, pos, q), leaf(Rule::Trivia, q, te)],
                        ),
                        neutral(),
                    )
                } else {
                    fail(err1(pos, Rule::StringLit))
                }
            },
            None => fail(err1(pos, Rule::StringLit)),
        }
    } else if pos < s.len() && is_word_start_b(s[pos]) {
        let we = adv_word(s, pos);
        let w = s.subrange(pos, we);
        if w == kw_true() || w == kw_false() {
            let te = adv_trivia(s, we);
            let r = if w == kw_true() {
                Rule::KwTrue
            } else {
                Rule::KwFalse
            };
            ok(
                node(Rule::Primary, pos, te, seq![leaf(r, pos, we), leaf(Rule::Trivia, we, te)]),
                neutral(),
            )
        } else if is_keyword(w) {
            fail(SpecErr { pos, expected: primary_expected() })
        } else {
            let te = adv_trivia(s, we);
            ok(
                node(
                    Rule::Primary,
                    pos,
                    te,
                    seq![leaf(Rule::Identifier, pos, we), leaf(Rule::Trivia, we, te)],
                ),
                neutral(),
            )
        }
    } else if pos < s.len() && s[pos] == '(' as u8 {
        let t1 = adv_trivia(s, pos + 1);
        if pos < t1 <= s.len() {
            let sub = spec_level(s, t1, 4);
            match sub.res {
                None => fail(sub.err),
                Some(en) => {
                    if byte_at(s, en.end, ')' as u8) {
                        let te = adv_trivia(s, en.end + 1);
                        ok(
                            node(
                                Rule::Primary,
                                pos,
                                te,
                                seq![
                                    leaf(Rule::LParen, pos, pos + 1),
                                    leaf(Rule::Trivia, pos + 1, t1),
                                    en,
                                    leaf(Rule::RParen, en.end, en.end + 1),
                                    leaf(Rule::Trivia, en.end + 1, te),
                                ],
                            ),
                            sub.err,
                        )
                    } else {
                        fail(merge(sub.err, err1(en.end, Rule::RParen)))
                    }
                },
            }
        } else {
            fail(SpecErr { pos, expected: primary_expected() })
        }
    } else {
        fail(SpecErr { pos, expected: primary_expected() })
    }
}

/// unary = (`-` | `!`) unary | primary
pub open spec fn spec_unary(s: Seq<u8>, pos: int) -> SpecOut
    decreases s.len() - pos, 3int,
{
    if unary_op_at(s, pos) {
        let te = adv_trivia(s, pos + 1);
        if pos < te <= s.len() {
            let sub = spec_unary(s, te);
            match sub.res {
                None => fail(sub.err),
                Some(n) => ok(
                    node(
                        Rule::UnaryExpr,
                        pos,
                        n.end,
                        seq![
                            leaf(Rule::UnaryOp, pos, pos + 1),
                            leaf(Rule::Trivia, pos + 1, te),
                            n,
                        ],
                    ),
                    sub.err,
                ),
            }
        } else {
            fail(SpecErr { pos, expected: primary_expected() })
        }
    } else {
        spec_primary(s, pos)
    }
}

/// level k = level (k-1) ( op_k level (k-1) )*   for k = 1..4;
/// level 0 = unary. The chain keeps its operands flat, in source order.
pub open spec fn spec_level(s: Seq<u8>, pos: int, k: int) -> SpecOut
    decreases s.len() - pos, if k <= 0 { 4int } else { 4 + 2 * k },
{
    if k <= 0 {
        spec_unary(s, pos)
    } else {
        let first = spec_level(s, pos, k - 1);
        match first.res {
            None => fail(first.err),
            Some(n) => {
                if pos <= n.end <= s.len() {
                    spec_chain(s, pos, n.end, k, seq![n], first.err)
                } else {
                    ok(node(level_rule(k), pos, n.end, seq![n]), first.err)
                }
            },
        }
    }
}

/// The repetition inside level `k`: as long as an operator of the level
/// is there and an operand follows, both are appended; a failed operand
/// backtracks to just before the operator.
pub open spec fn spec_chain(
    s: Seq<u8>,
    start: int,
    pos: int,
    k: int,
    acc: Seq<SpecNode>,
    e: SpecErr,
) -> SpecOut
    decreases s.len() - pos, 3 + 2 * k,
{
    match op_end(s, pos, k) {
        None => ok(node(level_rule(k), start, pos, acc), merge(e, err1(pos, op_rule(k)))),
        Some(q) => {
            if pos < q <= s.len() {
                let te = adv_trivia(s, q);
                let sub = spec_level(s, te, k - 1);
                match sub.res {
                    None => ok(node(level_rule(k), start, pos, acc), merge(e, sub.err)),
                    Some(n) => {
                        let acc2 = acc + seq![leaf(op_rule(k), pos, q), leaf(Rule::Trivia, q, te), n];
                        if pos < n.end <= s.len() {
                            spec_chain(s, start, n.end, k, acc2, merge(e, sub.err))
                        } else {
                            ok(node(level_rule(k), start, pos, acc), merge(e, sub.err))
                        }
                    },
                }
            } else {
                ok(node(level_rule(k), start, pos, acc), merge(e, err1(pos, op_rule(k))))
            }
        },
    }
}

/// expression = level 4 (the `&&`/`||` chain).
pub open spec fn spec_expression(s: Seq<u8>, pos: int) -> SpecOut
    decreases s.len() - pos, 13int,
{
    spec_level(s, pos, 4)
}

/// param = type identifier
pub open spec fn spec_param(s: Seq<u8>, pos: int) -> SpecOut
    decreases s.len() - pos, 13int,
{
    if pos < s.len() && is_word_start_b(s[pos]) && is_type_word(word_at(s, pos)) {
        let we = adv_word(s, pos);
        let t1 = adv_trivia(s, we);
        if pos < t1 && t1 < s.len() && is_word_start_b(s[t1]) && !is_keyword(word_at(s, t1)) {
            let ie = adv_word(s, t1);
            let te = adv_trivia(s, ie);
            ok(
                node(
                    Rule::Param,
                    pos,
                    te,
                    seq![
                        leaf(Rule::TypeName, pos, we),
                        leaf(Rule::Trivia, we, t1),
                        leaf(Rule::Identifier, t1, ie),
                        leaf(Rule::Trivia, ie, te),
                    ],
                ),
                neutral(),
            )
        } else {
            fail(err1(if pos < t1 <= s.len() {
                t1
            } else {
                pos
            }, Rule::Identifier))
        }
    } else {
        fail(err1(pos, Rule::TypeName))
    }
}

/// The repetition inside a parameter list: `,` param, repeated.
pub open spec fn spec_plist(
    s: Seq<u8>,
    start: int,
    pos: int,
    acc: Seq<SpecNode>,
    e: SpecErr,
) -> SpecOut
    decreases s.len() - pos, 14int,
{
    if byte_at(s, pos, ',' as u8) {
        let te = adv_trivia(s, pos + 1);
        if pos < te <= s.len() {
            let sub = spec_param(s, te);
            match sub.res {
                None => fail(merge(e, sub.err)),
                Some(n) => {
                    let acc2 = acc + seq![leaf(Rule::Comma, pos, pos + 1), leaf(
                        Rule::Trivia,
                        pos + 1,
                        te,
                    ), n];
                    if pos < n.end <= s.len() {
                        spec_plist(s, start, n.end, acc2, merge(e, sub.err))
                    } else {
                        ok(node(Rule::ParamList, start, pos, acc), merge(e, sub.err))
                    }
                },
            }
        } else {
            ok(node(Rule::ParamList, start, pos, acc), merge(e, err1(pos, Rule::Comma)))
        }
    } else {
        ok(node(Rule::ParamList, start, pos, acc), merge(e, err1(pos, Rule::Comma)))
    }
}

/// param_list = param ( `,` param )*
pub open spec fn spec_param_list(s: Seq<u8>, pos: int) -> SpecOut
    decreases s.len() - pos, 15int,
{
    let first = spec_param(s, pos);
    match first.res {
        None => fail(first.err),
        Some(n) => spec_plist(s, pos, n.end, seq![n], first.err),
    }
}

/// The shared tail of assignments: `=` expression `;`, appended to the
/// tokens already matched in `lead`.
pub open spec fn spec_stmt_tail(
    s: Seq<u8>,
    start: int,
    pos: int,
    lead: Seq<SpecNode>,
    r: Rule,
) -> SpecOut
    decreases s.len() - pos, 14int,
{
    if assign_op_at(s, pos) {
        let t1 = adv_trivia(s, pos + 1);
        if pos < t1 <= s.len() {
            let ex = spec_expression(s, t1);
            match ex.res {
                None => fail(ex.err),
                Some(en) => {
                    if byte_at(s, en.end, ';' as u8) {
                        let te = adv_trivia(s, en.end + 1);
                        ok(
                            node(
                                r,
                                start,
                                te,
                                lead + seq![
                                    leaf(Rule::AssignOp, pos, pos + 1),
                                    leaf(Rule::Trivia, pos + 1, t1),
                                    en,
                                    leaf(Rule::Semi, en.end, en.end + 1),
                                    leaf(Rule::Trivia, en.end + 1, te),
                                ],
                            ),
                            ex.err,
                        )
                    } else {
                        fail(merge(ex.err, err1(en.end, Rule::Semi)))
                    }
                },
            }
        } else {
            fail(err1(pos, Rule::AssignOp))
        }
    } else {
        fail(err1(pos, Rule::AssignOp))
    }
}

/// require_stmt = `require` `(` expression `)` `;`
pub open spec fn spec_require_stmt(s: Seq<u8>, pos: int) -> SpecOut
    decreases s.len() - pos, 16int,
{
    let we = adv_word(s, pos);
    let t1 = adv_trivia(s, we);
    if pos < t1 <= s.len() && byte_at(s, t1, '(' as u8) {
        let t2 = adv_trivia(s, t1 + 1);
        if t1 < t2 <= s.len() {
            let ex = spec_expression(s, t2);
            match ex.res {
                None => fail(ex.err),
                Some(en) => {
                    if byte_at(s, en.end, ')' as u8) {
                        let t3 = adv_trivia(s, en.end + 1);
                        if byte_at(s, t3, ';' as u8) {
                            let te = adv_trivia(s, t3 + 1);
                            ok(
                                node(
                                    Rule::RequireStmt,
                                    pos,
                                    te,
                                    seq![
                                        leaf(Rule::KwRequire, pos, we),
                                        leaf(Rule::Trivia, we, t1),
                                        leaf(Rule::LParen, t1, t1 + 1),
                                        leaf(Rule::Trivia, t1 + 1, t2),
                                        en,
                                        leaf(Rule::RParen, en.end, en.end + 1),
                                        leaf(Rule::Trivia, en.end + 1, t3),
                                        leaf(Rule::Semi, t3, t3 + 1),
                                        leaf(Rule::Trivia, t3 + 1, te),
                                    ],
                                ),
                                ex.err,
                            )
                        } else {
                            fail(merge(ex.err, err1(t3, Rule::Semi)))
                        }
                    } else {
                        fail(merge(ex.err, err1(en.end, Rule::RParen)))
                    }
                },
            }
        } else {
            fail(err1(t1, Rule::LParen))
        }
    } else {
        fail(err1(if pos < t1 <= s.len() {
            t1
        } else {
            pos
        }, Rule::LParen))
    }
}

/// var_stmt = type identifier `=` expression `;`
pub open spec fn spec_var_stmt(s: Seq<u8>, pos: int) -> SpecOut
    decreases s.len() - pos, 16int,
{
    let we = adv_word(s, pos);
    let t1 = adv_trivia(s, we);
    if pos < t1 && t1 < s.len() && is_word_start_b(s[t1]) && !is_keyword(word_at(s, t1)) {
        let ie = adv_word(s, t1);
        let t2 = adv_trivia(s, ie);
        if t1 < t2 <= s.len() {
            spec_stmt_tail(
                s,
                pos,
                t2,
                seq![
                    leaf(Rule::TypeName, pos, we),
                    leaf(Rule::Trivia, we, t1),
                    leaf(Rule::Identifier, t1, ie),
                    leaf(Rule::Trivia, ie, t2),
                ],
                Rule::VarStmt,
            )
        } else {
            fail(err1(t1, Rule::Identifier))
        }
    } else {
        fail(err1(if pos < t1 <= s.len() {
            t1
        } else {
            pos
        }, Rule::Identifier))
    }
}

/// assign_stmt = identifier `=` expression `;`
pub open spec fn spec_assign_stmt(s: Seq<u8>, pos: int) -> SpecOut
    decreases s.len() - pos, 16int,
{
    let ie = adv_word(s, pos);
    let t1 = adv_trivia(s, ie);
    if pos < t1 <= s.len() {
        spec_stmt_tail(
            s,
            pos,
            t1,
            seq![leaf(Rule::Identifier, pos, ie), leaf(Rule::Trivia, ie, t1)],
            Rule::AssignStmt,
        )
    } else {
        fail(err1(pos, Rule::Identifier))
    }
}

/// statement = require_stmt | var_stmt | assign_stmt, decided by the
/// word the statement begins with.
pub open spec fn spec_statement(s: Seq<u8>, pos: int) -> SpecOut
    decreases s.len() - pos, 17int,
{
    if pos < s.len() && is_word_start_b(s[pos]) {
        let w = word_at(s, pos);
        if w == kw_require() {
            spec_require_stmt(s, pos)
        } else if is_type_word(w) {
            spec_var_stmt(s, pos)
        } else if !is_keyword(w) {
            spec_assign_stmt(s, pos)
        } else {
            fail(SpecErr { pos, expected: statement_expected() })
        }
    } else {
        fail(SpecErr { pos, expected: statement_expected() })
    }
}

/// statement*, collected until a statement no longer matches.
pub open spec fn spec_stmt_list(
    s: Seq<u8>,
    pos: int,
    acc: Seq<SpecNode>,
    e: SpecErr,
) -> SpecListOut
    decreases s.len() - pos, 18int,
{
    let st = spec_statement(s, pos);
    match st.res {
        None => SpecListOut { items: acc, end: pos, err: merge(e, st.err) },
        Some(n) => {
            if pos < n.end <= s.len() {
                spec_stmt_list(s, n.end, acc.push(n), merge(e, st.err))
            } else {
                SpecListOut { items: acc, end: pos, err: merge(e, st.err) }
            }
        },
    }
}

/// function_def = `function` identifier `(` param_list? `)`
///                `{` statement* `}`
pub open spec fn spec_function_def(s: Seq<u8>, pos: int) -> SpecOut
    decreases s.len() - pos, 19int,
{
    let we = adv_word(s, pos);
    let t1 = adv_trivia(s, we);
    if !(pos < t1 <= s.len()) {
        fail(err1(pos, Rule::KwFunction))
    } else if !(t1 < s.len() && is_word_start_b(s[t1]) && !is_keyword(word_at(s, t1))) {
        fail(err1(t1, Rule::Identifier))
    } else {
        let ie = adv_word(s, t1);
        let t2 = adv_trivia(s, ie);
        if !(t1 < t2 <= s.len() && byte_at(s, t2, '(' as u8)) {
            fail(err1(t2, Rule::LParen))
        } else {
            let t3 = adv_trivia(s, t2 + 1);
            if !(t2 < t3 <= s.len()) {
                fail(err1(t2, Rule::LParen))
            } else {
                let head = seq![
                    leaf(Rule::KwFunction, pos, we),
                    leaf(Rule::Trivia, we, t1),
                    leaf(Rule::Identifier, t1, ie),
                    leaf(Rule::Trivia, ie, t2),
                    leaf(Rule::LParen, t2, t2 + 1),
                    leaf(Rule::Trivia, t2 + 1, t3),
                ];
                let has_params = t3 < s.len() && is_word_start_b(s[t3]) && is_type_word(
                    word_at(s, t3),
                );
                let pl = if has_params {
                    spec_param_list(s, t3)
                } else {
                    ok(node(Rule::ParamList, t3, t3, Seq::<SpecNode>::empty()), neutral())
                };
                match pl.res {
                    None => fail(pl.err),
                    Some(pn) => {
                        let body = if has_params {
                            head.push(pn)
                        } else {
                            head
                        };
                        let p4 = if has_params {
                            pn.end
                        } else {
                            t3
                        };
                        if !(t3 <= p4 <= s.len()) {
                            fail(pl.err)
                        } else if !byte_at(s, p4, ')' as u8) {
                            fail(merge(pl.err, err1(p4, Rule::RParen)))
                        } else {
                            let t5 = adv_trivia(s, p4 + 1);
                            if !(p4 < t5 <= s.len() && byte_at(s, t5, '{' as u8)) {
                                fail(merge(pl.err, err1(t5, Rule::LBrace)))
                            } else {
                                let t6 = adv_trivia(s, t5 + 1);
                                if !(t5 < t6 <= s.len()) {
                                    fail(merge(pl.err, err1(t5, Rule::LBrace)))
                                } else {
                                    let body2 = body + seq![
                                        leaf(Rule::RParen, p4, p4 + 1),
                                        leaf(Rule::Trivia, p4 + 1, t5),
                                        leaf(Rule::LBrace, t5, t5 + 1),
                                        leaf(Rule::Trivia, t5 + 1, t6),
                                    ];
                                    let sl = spec_stmt_list(s, t6, body2, pl.err);
                                    if !(t6 <= sl.end <= s.len()) {
                                        fail(sl.err)
                                    } else if !byte_at(s, sl.end, '}' as u8) {
                                        fail(merge(sl.err, err1(sl.end, Rule::RBrace)))
                                    } else {
                                        let te = adv_trivia(s, sl.end + 1);
                                        ok(
                                            node(
                                                Rule::FunctionDef,
                                                pos,
                                                te,
                                                sl.items + seq![
                                                    leaf(Rule::RBrace, sl.end, sl.end + 1),
                                                    leaf(Rule::Trivia, sl.end + 1, te),
                                                ],
                                            ),
                                            sl.err,
                                        )
                                    }
                                }
                            }
                        }
                    },
                }
            }
        }
    }
}

/// function_def*, collected until one no longer matches.
pub open spec fn spec_fn_list(s: Seq<u8>, pos: int, acc: Seq<SpecNode>, e: SpecErr) -> SpecListOut
    decreases s.len() - pos, 20int,
{
    if pos < s.len() && is_word_start_b(s[pos]) && word_at(s, pos) == kw_function() {
        let fd = spec_function_def(s, pos);
        match fd.res {
            None => SpecListOut { items: acc, end: pos, err: merge(e, fd.err) },
            Some(n) => {
                if pos < n.end <= s.len() {
                    spec_fn_list(s, n.end, acc.push(n), merge(e, fd.err))
                } else {
                    SpecListOut { items: acc, end: pos, err: merge(e, fd.err) }
                }
            },
        }
    } else {
        SpecListOut { items: acc, end: pos, err: merge(e, err1(pos, Rule::KwFunction)) }
    }
}

/// contract_def = `contract` identifier `(` param_list? `)`
///                `{` function_def* `}`
pub open spec fn spec_contract_def(s: Seq<u8>, pos: int) -> SpecOut
    decreases s.len() - pos, 21int,
{
    let we = adv_word(s, pos);
    let t1 = adv_trivia(s, we);
    if !(pos < t1 <= s.len()) {
        fail(err1(pos, Rule::KwContract))
    } else if !(t1 < s.len() && is_word_start_b(s[t1]) && !is_keyword(word_at(s, t1))) {
        fail(err1(t1, Rule::Identifier))
    } else {
        let ie = adv_word(s, t1);
        let t2 = adv_trivia(s, ie);
        if !(t1 < t2 <= s.len() && byte_at(s, t2, '(' as u8)) {
            fail(err1(t2, Rule::LParen))
        } else {
            let t3 = adv_trivia(s, t2 + 1);
            if !(t2 < t3 <= s.len()) {
                fail(err1(t2, Rule::LParen))
            } else {
                let head = seq![
                    leaf(Rule::KwContract, pos, we),
                    leaf(Rule::Trivia, we, t1),
                    leaf(Rule::Identifier, t1, ie),
                    leaf(Rule::Trivia, ie, t2),
                    leaf(Rule::LParen, t2, t2 + 1),
                    leaf(Rule::Trivia, t2 + 1, t3),
                ];
                let has_params = t3 < s.len() && is_word_start_b(s[t3]) && is_type_word(
                    word_at(s, t3),
                );
                let pl = if has_params {
                    spec_param_list(s, t3)
                } else {
                    ok(node(Rule::ParamList, t3, t3, Seq::<SpecNode>::empty()), neutral())
                };
                match pl.res {
                    None => fail(pl.err),
                    Some(pn) => {
                        let body = if has_params {
                            head.push(pn)
                        } else {
                            head
                        };
                        let p4 = if has_params {
                            pn.end
                        } else {
                            t3
                        };
                        if !(t3 <= p4 <= s.len()) {
                            fail(pl.err)
                        } else if !byte_at(s, p4, ')' as u8) {
                            fail(merge(pl.err, err1(p4, Rule::RParen)))
                        } else {
                            let t5 = adv_trivia(s, p4 + 1);
                            if !(p4 < t5 <= s.len() && byte_at(s, t5, '{' as u8)) {
                                fail(merge(pl.err, err1(t5, Rule::LBrace)))
                            } else {
                                let t6 = adv_trivia(s, t5 + 1);
                                if !(t5 < t6 <= s.len()) {
                                    fail(merge(pl.err, err1(t5, Rule::LBrace)))
                                } else {
                                    let body2 = body + seq![
                                        leaf(Rule::RParen, p4, p4 + 1),
                                        leaf(Rule::Trivia, p4 + 1, t5),
                                        leaf(Rule::LBrace, t5, t5 + 1),
                                        leaf(Rule::Trivia, t5 + 1, t6),
                                    ];
                                    let fl = spec_fn_list(s, t6, body2, pl.err);
                                    if !(t6 <= fl.end <= s.len()) {
                                        fail(fl.err)
                                    } else if !byte_at(s, fl.end, '}' as u8) {
                                        fail(merge(fl.err, err1(fl.end, Rule::RBrace)))
                                    } else {
                                        let te = adv_trivia(s, fl.end + 1);
                                        ok(
                                            node(
                                                Rule::ContractDef,
                                                pos,
                                                te,
                                                fl.items + seq![
                                                    leaf(Rule::RBrace, fl.end, fl.end + 1),
                                                    leaf(Rule::Trivia, fl.end + 1, te),
                                                ],
                                            ),
                                            fl.err,
                                        )
                                    }
                                }
                            }
                        }
                    },
                }
            }
        }
    }
}

/// declaration = contract_def | function_def, decided by the keyword.
pub open spec fn spec_declaration(s: Seq<u8>, pos: int) -> SpecOut
    decreases s.len() - pos, 22int,
{
    if pos < s.len() && is_word_start_b(s[pos]) {
        let w = word_at(s, pos);
        if w == kw_contract() {
            spec_contract_def(s, pos)
        } else if w == kw_function() {
            spec_function_def(s, pos)
        } else {
            fail(SpecErr { pos, expected: declaration_expected() })
        }
    } else {
        fail(SpecErr { pos, expected: declaration_expected() })
    }
}

/// declaration*, collected until one no longer matches.
pub open spec fn spec_decl_list(s: Seq<u8>, pos: int, acc: Seq<SpecNode>, e: SpecErr) -> SpecListOut
    decreases s.len() - pos, 23int,
{
    let d = spec_declaration(s, pos);
    match d.res {
        None => SpecListOut { items: acc, end: pos, err: merge(e, d.err) },
        Some(n) => {
            if pos < n.end <= s.len() {
                spec_decl_list(s, n.end, acc.push(n), merge(e, d.err))
            } else {
                SpecListOut { items: acc, end: pos, err: merge(e, d.err) }
            }
        },
    }
}

/// source_file = trivia declaration* end-of-input. The whole input must
/// be consumed: trailing bytes that no declaration matches fail the
/// parse, they are never silently dropped.
pub open spec fn spec_source_file(s: Seq<u8>) -> SpecOut
    decreases s.len(), 24int,
{
    let t0 = adv_trivia(s, 0);
    if 0 <= t0 <= s.len() {
        let dl = spec_decl_list(s, t0, seq![leaf(Rule::Trivia, 0, t0)], neutral());
        if dl.end == s.len() {
            ok(node(Rule::SourceFile, 0, s.len() as int, dl.items), dl.err)
        } else {
            fail(merge(dl.err, err1(dl.end, Rule::Eoi)))
        }
    } else {
        fail(err1(0, Rule::Eoi))
    }
}

/// expression entry: leading trivia, one expression, end-of-input. As
/// with the source-file entry, the returned root covers the whole
/// input: the leading trivia stands beside the expression's operands
/// as the root's first leaf, so no byte lies outside the tree.
pub open spec fn spec_expression_entry(s: Seq<u8>) -> SpecOut
    decreases s.len(), 25int,
{
    let t0 = adv_trivia(s, 0);
    if 0 <= t0 <= s.len() {
        let ex = spec_expression(s, t0);
        match ex.res {
            None => fail(ex.err),
            Some(n) => {
                if n.end == s.len() {
                    ok(
                        node(
                            Rule::Expression,
                            0,
                            s.len() as int,
                            seq![leaf(Rule::Trivia, 0, t0)] + n.children,
                        ),
                        ex.err,
                    )
                } else {
                    fail(merge(ex.err, err1(n.end, Rule::Eoi)))
                }
            },
        }
    } else {
        fail(err1(0, Rule::Eoi))
    }
}

} // verus!
