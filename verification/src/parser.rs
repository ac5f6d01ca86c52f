//! The executable DSL parser. Each function mirrors one production of
//! the grammar in `engine` and is proved to return exactly the value of
//! its specification twin, together with the structural facts of the
//! tree it builds: the node starts at the entry position, consumes at
//! least one byte, stays inside the input, and is well formed.

use vstd::prelude::*;

use crate::engine::declaration_expected;
use crate::engine::err1;
use crate::engine::fail;
use crate::engine::is_keyword;
use crate::engine::is_type_word;
use crate::engine::kw_bool;
use crate::engine::kw_bytes;
use crate::engine::kw_contract;
use crate::engine::kw_false;
use crate::engine::kw_function;
use crate::engine::kw_int;
use crate::engine::kw_pubkey;
use crate::engine::kw_require;
use crate::engine::kw_sig;
use crate::engine::kw_string;
use crate::engine::kw_true;
use crate::engine::leaf;
use crate::engine::level_rule;
use crate::engine::merge;
use crate::engine::neutral;
use crate::engine::node;
use crate::engine::op_end;
use crate::engine::op_rule;
use crate::engine::primary_expected;
use crate::engine::spec_assign_stmt;
use crate::engine::spec_chain;
use crate::engine::spec_contract_def;
use crate::engine::spec_decl_list;
use crate::engine::spec_declaration;
use crate::engine::spec_expression;
use crate::engine::spec_expression_entry;
use crate::engine::spec_fn_list;
use crate::engine::spec_function_def;
use crate::engine::spec_level;
use crate::engine::spec_param;
use crate::engine::spec_param_list;
use crate::engine::spec_plist;
use crate::engine::spec_primary;
use crate::engine::spec_require_stmt;
use crate::engine::spec_source_file;
use crate::engine::spec_statement;
use crate::engine::spec_stmt_list;
use crate::engine::spec_stmt_tail;
use crate::engine::spec_unary;
use crate::engine::spec_var_stmt;
use crate::engine::SpecListOut;
use vstd::string::StringSliceAdditionalSpecFns;
use crate::engine::statement_expected;
use crate::engine::SpecErr;
use crate::engine::SpecOut;
use crate::scan::is_digit;
use crate::scan::is_word_start;
use crate::scan::lemma_digits_end;
use crate::scan::lemma_word_end;
use crate::scan::scan_digits_end;
use crate::scan::scan_str_close;
use crate::scan::scan_trivia_end;
use crate::scan::scan_word_end;
use crate::tree::lemma_models_of_concat;
use crate::tree::lemma_models_of_push;
use crate::tree::lemma_wf_children_push;
use crate::tree::models_of;
use crate::tree::wf_children;
use crate::tree::Node;
use crate::tree::Rule;
use crate::tree::SpecNode;

verus! {

/// A DSL syntax error: the deepest position the parser reached while
/// failing, and the set of rules it expected there.
#[derive(Debug, PartialEq, Eq)]
pub struct ParseError {
    pub pos: usize,
    pub expected: Vec<Rule>,
}

/// Outcome of one production: a node on success, plus the deepest
/// failure seen along the way.
pub struct POut {
    pub node: Option<Node>,
    pub err: ParseError,
}

pub open spec fn err_model(e: ParseError) -> SpecErr {
    SpecErr { pos: e.pos as int, expected: e.expected@ }
}

pub open spec fn out_model(r: POut) -> SpecOut {
    SpecOut {
        res: match r.node {
            Some(n) => Some(n.model()),
            None => None,
        },
        err: err_model(r.err),
    }
}

/// The executable outcome matches the specified one, and a returned
/// node starts at the entry position, consumes at least one byte, stays
/// inside the input, and is well formed.
pub open spec fn good(r: POut, o: SpecOut, len: int, pos: int) -> bool {
    out_model(r) == o && (match r.node {
        Some(n) => n.start as int == pos && pos < n.end as int <= len && n.model().wf(len),
        None => o.res is None,
    }) && (r.node is Some <==> o.res is Some)
}

fn neutral_err() -> (e: ParseError)
    ensures
        err_model(e) == neutral(),
{
    let e = ParseError { pos: 0, expected: Vec::new() };
    proof {
        assert(e.expected@ =~= neutral().expected);
    }
    e
}

fn err_at(pos: usize, r: Rule) -> (e: ParseError)
    ensures
        err_model(e) == err1(pos as int, r),
{
    let e = ParseError { pos, expected: vec![r] };
    proof {
        assert(e.expected@ =~= err1(pos as int, r).expected);
    }
    e
}

fn merge_err(a: ParseError, b: ParseError) -> (e: ParseError)
    ensures
        err_model(e) == merge(err_model(a), err_model(b)),
{
    if a.pos > b.pos {
        a
    } else if b.pos > a.pos {
        b
    } else {
        let mut a = a;
        let mut b = b;
        a.expected.append(&mut b.expected);
        a
    }
}

// --- building nodes with their tiling invariant ---

/// Accumulates the children of one node left to right; the invariant
/// carries the tiling proof, so a finished node is well formed by
/// construction.
pub struct NodeBuilder {
    pub rule: Rule,
    pub start: usize,
    pub cur: usize,
    pub children: Vec<Node>,
}

impl NodeBuilder {
    pub open spec fn kids(self) -> Seq<SpecNode> {
        models_of(self.children@)
    }

    pub open spec fn inv(self, len: int) -> bool {
        self.start <= self.cur && self.cur as int <= len && wf_children(
            self.kids(),
            len,
            self.start as int,
            self.cur as int,
        )
    }

    pub fn begin(rule: Rule, start: usize, Ghost(len): Ghost<int>) -> (b: NodeBuilder)
        requires
            start as int <= len,
        ensures
            b.inv(len),
            b.rule == rule,
            b.start == start,
            b.cur == start,
            b.kids() == Seq::<SpecNode>::empty(),
    {
        let b = NodeBuilder { rule, start, cur: start, children: Vec::new() };
        proof {
            assert(b.kids() =~= Seq::<SpecNode>::empty());
        }
        b
    }

    /// Append a leaf covering `[self.cur, end)`.
    pub fn leaf_to(&mut self, r: Rule, end: usize, Ghost(len): Ghost<int>)
        requires
            old(self).inv(len),
            old(self).cur <= end,
            end as int <= len,
        ensures
            final(self).inv(len),
            final(self).rule == old(self).rule,
            final(self).start == old(self).start,
            final(self).cur == end,
            final(self).kids() == old(self).kids().push(
                leaf(r, old(self).cur as int, end as int),
            ),
    {
        let l = Node { rule: r, start: self.cur, end, children: Vec::new() };
        proof {
            assert(models_of(l.children@) =~= Seq::<SpecNode>::empty());
            assert(l.model() == leaf(r, self.cur as int, end as int));
        }
        let ghost v = self.children@;
        let ghost c = l.model();
        self.children.push(l);
        proof {
            lemma_models_of_push(v, l);
            lemma_wf_children_push(
                models_of(v),
                len,
                self.start as int,
                self.cur as int,
                c,
            );
        }
        self.cur = end;
    }

    /// Append an already built child that starts where the tiling ends.
    pub fn child(&mut self, n: Node, Ghost(len): Ghost<int>)
        requires
            old(self).inv(len),
            n.start == old(self).cur,
            n.start <= n.end,
            n.end as int <= len,
            n.model().wf(len),
        ensures
            final(self).inv(len),
            final(self).rule == old(self).rule,
            final(self).start == old(self).start,
            final(self).cur == n.end,
            final(self).kids() == old(self).kids().push(n.model()),
    {
        let end = n.end;
        let ghost v = self.children@;
        let ghost c = n.model();
        self.children.push(n);
        proof {
            lemma_models_of_push(v, self.children@[v.len() as int]);
            lemma_wf_children_push(
                models_of(v),
                len,
                self.start as int,
                self.cur as int,
                c,
            );
        }
        self.cur = end;
    }

    /// Close the node over everything appended so far.
    pub fn finish(self, Ghost(len): Ghost<int>) -> (n: Node)
        requires
            self.inv(len),
        ensures
            n.model() == node(self.rule, self.start as int, self.cur as int, self.kids()),
            n.model().wf(len),
            n.rule == self.rule,
            n.start == self.start,
            n.end == self.cur,
    {
        let n = Node { rule: self.rule, start: self.start, end: self.cur, children: self.children };
        proof {
            assert(n.model() == node(self.rule, self.start as int, self.cur as int, self.kids()));
        }
        n
    }
}

// --- word classification ---

pub enum WordClass {
    Contract,
    Function,
    Require,
    TrueWord,
    FalseWord,
    TypeWord,
    Plain,
}

fn bytes_eq(s: &[u8], lo: usize, hi: usize, lit: &Vec<u8>) -> (r: bool)
    requires
        lo <= hi <= s@.len(),
    ensures
        r == (s@.subrange(lo as int, hi as int) == lit@),
{
    let n = lit.len();
    if hi - lo != n {
        proof {
            assert(s@.subrange(lo as int, hi as int).len() == hi - lo);
        }
        return false;
    }
    let mut i: usize = 0;
    while i < n
        invariant
            i <= n,
            lo <= hi <= s@.len(),
            hi - lo == n,
            n == lit@.len(),
            forall|j: int| 0 <= j < i ==> s@[lo + j] == lit@[j],
        decreases n - i,
    {
        if s[lo + i] != lit[i] {
            proof {
                assert(s@.subrange(lo as int, hi as int)[i as int] == s@[lo + i]);
            }
            return false;
        }
        i = i + 1;
    }
    proof {
        assert(s@.subrange(lo as int, hi as int) =~= lit@);
    }
    true
}

/// Which reserved word, if any, the bytes `[lo, hi)` spell.
fn classify_word(s: &[u8], lo: usize, hi: usize) -> (c: WordClass)
    requires
        lo <= hi <= s@.len(),
    ensures
        ({
            let w = s@.subrange(lo as int, hi as int);
            &&& (c is Contract <==> w == kw_contract())
            &&& (c is Function <==> w == kw_function())
            &&& (c is Require <==> w == kw_require())
            &&& (c is TrueWord <==> w == kw_true())
            &&& (c is FalseWord <==> w == kw_false())
            &&& (c is TypeWord <==> is_type_word(w))
            &&& (c is Plain <==> !is_keyword(w))
        }),
{
    let v_contract = vec!['c' as u8, 'o' as u8, 'n' as u8, 't' as u8, 'r' as u8, 'a' as u8, 'c' as u8, 't' as u8];
    let v_function = vec!['f' as u8, 'u' as u8, 'n' as u8, 'c' as u8, 't' as u8, 'i' as u8, 'o' as u8, 'n' as u8];
    let v_require = vec!['r' as u8, 'e' as u8, 'q' as u8, 'u' as u8, 'i' as u8, 'r' as u8, 'e' as u8];
    let v_true = vec!['t' as u8, 'r' as u8, 'u' as u8, 'e' as u8];
    let v_false = vec!['f' as u8, 'a' as u8, 'l' as u8, 's' as u8, 'e' as u8];
    let v_int = vec!['i' as u8, 'n' as u8, 't' as u8];
    let v_bool = vec!['b' as u8, 'o' as u8, 'o' as u8, 'l' as u8];
    let v_string = vec!['s' as u8, 't' as u8, 'r' as u8, 'i' as u8, 'n' as u8, 'g' as u8];
    let v_pubkey = vec!['p' as u8, 'u' as u8, 'b' as u8, 'k' as u8, 'e' as u8, 'y' as u8];
    let v_sig = vec!['s' as u8, 'i' as u8, 'g' as u8];
    let v_bytes = vec!['b' as u8, 'y' as u8, 't' as u8, 'e' as u8, 's' as u8];
    proof {
        assert(v_contract@ =~= kw_contract());
        assert(v_function@ =~= kw_function());
        assert(v_require@ =~= kw_require());
        assert(v_true@ =~= kw_true());
        assert(v_false@ =~= kw_false());
        assert(v_int@ =~= kw_int());
        assert(v_bool@ =~= kw_bool());
        assert(v_string@ =~= kw_string());
        assert(v_pubkey@ =~= kw_pubkey());
        assert(v_sig@ =~= kw_sig());
        assert(v_bytes@ =~= kw_bytes());
    }
    if bytes_eq(s, lo, hi, &v_contract) {
        WordClass::Contract
    } else if bytes_eq(s, lo, hi, &v_function) {
        WordClass::Function
    } else if bytes_eq(s, lo, hi, &v_require) {
        WordClass::Require
    } else if bytes_eq(s, lo, hi, &v_true) {
        WordClass::TrueWord
    } else if bytes_eq(s, lo, hi, &v_false) {
        WordClass::FalseWord
    } else if bytes_eq(s, lo, hi, &v_int) || bytes_eq(s, lo, hi, &v_bool) || bytes_eq(
        s,
        lo,
        hi,
        &v_string,
    ) || bytes_eq(s, lo, hi, &v_pubkey) || bytes_eq(s, lo, hi, &v_sig) || bytes_eq(
        s,
        lo,
        hi,
        &v_bytes,
    ) {
        WordClass::TypeWord
    } else {
        WordClass::Plain
    }
}

// --- operators ---

fn op_rule_x(k: usize) -> (r: Rule)
    ensures
        r == op_rule(k as int),
{
    if k == 1 {
        Rule::MulOp
    } else if k == 2 {
        Rule::AddOp
    } else if k == 3 {
        Rule::CmpOp
    } else {
        Rule::BoolOp
    }
}

fn level_rule_x(k: usize) -> (r: Rule)
    ensures
        r == level_rule(k as int),
{
    if k == 1 {
        Rule::MulExpr
    } else if k == 2 {
        Rule::AddExpr
    } else if k == 3 {
        Rule::CmpExpr
    } else {
        Rule::Expression
    }
}

fn match_op(s: &[u8], pos: usize, k: usize) -> (r: Option<usize>)
    requires
        pos <= s@.len(),
        1 <= k <= 4,
    ensures
        match r {
            Some(q) => op_end(s@, pos as int, k as int) == Some(q as int) && pos < q <= s@.len(),
            None => op_end(s@, pos as int, k as int) is None,
        },
{
    if k == 1 {
        if pos < s.len() && (s[pos] == '*' as u8 || s[pos] == '/' as u8 || s[pos] == '%' as u8) {
            Some(pos + 1)
        } else {
            None
        }
    } else if k == 2 {
        if pos < s.len() && (s[pos] == '+' as u8 || s[pos] == '-' as u8) {
            Some(pos + 1)
        } else {
            None
        }
    } else if k == 3 {
        if pos < s.len() && pos + 1 < s.len() && s[pos + 1] == '=' as u8 && (s[pos] == '=' as u8
            || s[pos] == '!' as u8 || s[pos] == '<' as u8 || s[pos] == '>' as u8) {
            Some(pos + 2)
        } else if pos < s.len() && (s[pos] == '<' as u8 || s[pos] == '>' as u8) {
            Some(pos + 1)
        } else {
            None
        }
    } else {
        if pos < s.len() && pos + 1 < s.len() && ((s[pos] == '&' as u8 && s[pos + 1] == '&' as u8)
            || (s[pos] == '|' as u8 && s[pos + 1] == '|' as u8)) {
            Some(pos + 2)
        } else {
            None
        }
    }
}

fn primary_fail(pos: usize) -> (e: ParseError)
    ensures
        err_model(e) == (SpecErr { pos: pos as int, expected: primary_expected() }),
{
    let e = ParseError {
        pos,
        expected: vec![
            Rule::Number,
            Rule::StringLit,
            Rule::KwTrue,
            Rule::KwFalse,
            Rule::Identifier,
            Rule::LParen,
        ],
    };
    proof {
        assert(e.expected@ =~= primary_expected());
    }
    e
}

// --- expressions ---

fn p_primary(s: &[u8], pos: usize) -> (r: POut)
    requires
        pos <= s@.len(),
    ensures
        good(r, spec_primary(s@, pos as int), s@.len() as int, pos as int),
    decreases s@.len() - pos, 2int,
{
    let ghost len = s@.len() as int;
    if pos < s.len() && is_digit(s[pos]) {
        let de = scan_digits_end(s, pos);
        let te = scan_trivia_end(s, de);
        proof {
            lemma_digits_end(s@, pos + 1);
        }
        let mut b = NodeBuilder::begin(Rule::Primary, pos, Ghost(len));
        b.leaf_to(Rule::Number, de, Ghost(len));
        b.leaf_to(Rule::Trivia, te, Ghost(len));
        let ghost ks = b.kids();
        let n = b.finish(Ghost(len));
        proof {
            assert(ks =~= seq![
                leaf(Rule::Number, pos as int, de as int),
                leaf(Rule::Trivia, de as int, te as int),
            ]);
        }
        POut { node: Some(n), err: neutral_err() }
    } else if pos < s.len() && s[pos] == '"' as u8 {
        match scan_str_close(s, pos + 1) {
            Some(q) => {
                let te = scan_trivia_end(s, q);
                let mut b = NodeBuilder::begin(Rule::Primary, pos, Ghost(len));
                b.leaf_to(Rule::StringLit, q, Ghost(len));
                b.leaf_to(Rule::Trivia, te, Ghost(len));
                let ghost ks = b.kids();
                let n = b.finish(Ghost(len));
                proof {
                    assert(ks =~= seq![
                        leaf(Rule::StringLit, pos as int, q as int),
                        leaf(Rule::Trivia, q as int, te as int),
                    ]);
                }
                POut { node: Some(n), err: neutral_err() }
            },
            None => POut { node: None, err: err_at(pos, Rule::StringLit) },
        }
    } else if pos < s.len() && is_word_start(s[pos]) {
        let we = scan_word_end(s, pos);
        proof {
            lemma_word_end(s@, pos + 1);
        }
        let cw = classify_word(s, pos, we);
        match cw {
            WordClass::TrueWord => {
                let te = scan_trivia_end(s, we);
                let mut b = NodeBuilder::begin(Rule::Primary, pos, Ghost(len));
                b.leaf_to(Rule::KwTrue, we, Ghost(len));
                b.leaf_to(Rule::Trivia, te, Ghost(len));
                let ghost ks = b.kids();
                let n = b.finish(Ghost(len));
                proof {
                    assert(ks =~= seq![
                        leaf(Rule::KwTrue, pos as int, we as int),
                        leaf(Rule::Trivia, we as int, te as int),
                    ]);
                }
                POut { node: Some(n), err: neutral_err() }
            },
            WordClass::FalseWord => {
                let te = scan_trivia_end(s, we);
                let mut b = NodeBuilder::begin(Rule::Primary, pos, Ghost(len));
                b.leaf_to(Rule::KwFalse, we, Ghost(len));
                b.leaf_to(Rule::Trivia, te, Ghost(len));
                let ghost ks = b.kids();
                let n = b.finish(Ghost(len));
                proof {
                    assert(ks =~= seq![
                        leaf(Rule::KwFalse, pos as int, we as int),
                        leaf(Rule::Trivia, we as int, te as int),
                    ]);
                }
                POut { node: Some(n), err: neutral_err() }
            },
            WordClass::Plain => {
                let te = scan_trivia_end(s, we);
                let mut b = NodeBuilder::begin(Rule::Primary, pos, Ghost(len));
                b.leaf_to(Rule::Identifier, we, Ghost(len));
                b.leaf_to(Rule::Trivia, te, Ghost(len));
                let ghost ks = b.kids();
                let n = b.finish(Ghost(len));
                proof {
                    assert(ks =~= seq![
                        leaf(Rule::Identifier, pos as int, we as int),
                        leaf(Rule::Trivia, we as int, te as int),
                    ]);
                }
                POut { node: Some(n), err: neutral_err() }
            },
            _ => POut { node: None, err: primary_fail(pos) },
        }
    } else if pos < s.len() && s[pos] == '(' as u8 {
        let t1 = scan_trivia_end(s, pos + 1);
        let sub = p_level(s, t1, 4);
        match sub.node {
            None => POut { node: None, err: sub.err },
            Some(en) => {
                if en.end < s.len() && s[en.end] == ')' as u8 {
                    let te = scan_trivia_end(s, en.end + 1);
                    let ghost em = en.model();
                    let mut b = NodeBuilder::begin(Rule::Primary, pos, Ghost(len));
                    b.leaf_to(Rule::LParen, pos + 1, Ghost(len));
                    b.leaf_to(Rule::Trivia, t1, Ghost(len));
                    let close = en.end;
                    b.child(en, Ghost(len));
                    b.leaf_to(Rule::RParen, close + 1, Ghost(len));
                    b.leaf_to(Rule::Trivia, te, Ghost(len));
                    let ghost ks = b.kids();
                    let n = b.finish(Ghost(len));
                    proof {
                        assert(ks =~= seq![
                            leaf(Rule::LParen, pos as int, pos + 1),
                            leaf(Rule::Trivia, pos + 1, t1 as int),
                            em,
                            leaf(Rule::RParen, em.end, em.end + 1),
                            leaf(Rule::Trivia, em.end + 1, te as int),
                        ]);
                    }
                    POut { node: Some(n), err: sub.err }
                } else {
                    let e = merge_err(sub.err, err_at(en.end, Rule::RParen));
                    POut { node: None, err: e }
                }
            },
        }
    } else {
        POut { node: None, err: primary_fail(pos) }
    }
}

fn p_unary(s: &[u8], pos: usize) -> (r: POut)
    requires
        pos <= s@.len(),
    ensures
        good(r, spec_unary(s@, pos as int), s@.len() as int, pos as int),
    decreases s@.len() - pos, 3int,
{
    let ghost len = s@.len() as int;
    if pos < s.len() && (s[pos] == '-' as u8 || (s[pos] == '!' as u8 && !(pos + 1 < s.len() && s[pos
        + 1] == '=' as u8))) {
        let te = scan_trivia_end(s, pos + 1);
        let sub = p_unary(s, te);
        match sub.node {
            None => POut { node: None, err: sub.err },
            Some(n) => {
                let ghost nm = n.model();
                let mut b = NodeBuilder::begin(Rule::UnaryExpr, pos, Ghost(len));
                b.leaf_to(Rule::UnaryOp, pos + 1, Ghost(len));
                b.leaf_to(Rule::Trivia, te, Ghost(len));
                b.child(n, Ghost(len));
                let ghost ks = b.kids();
                let n2 = b.finish(Ghost(len));
                proof {
                    assert(ks =~= seq![
                        leaf(Rule::UnaryOp, pos as int, pos + 1),
                        leaf(Rule::Trivia, pos + 1, te as int),
                        nm,
                    ]);
                }
                POut { node: Some(n2), err: sub.err }
            },
        }
    } else {
        p_primary(s, pos)
    }
}

fn p_level(s: &[u8], pos: usize, k: usize) -> (r: POut)
    requires
        pos <= s@.len(),
        k <= 4,
    ensures
        good(r, spec_level(s@, pos as int, k as int), s@.len() as int, pos as int),
        k >= 1 && r.node is Some ==> r.node->0.rule == level_rule(k as int)
            && r.node->0.model().children.len() > 0,
    decreases s@.len() - pos, (if k == 0 { 4int } else { 4 + 2 * k as int }),
{
    let ghost len = s@.len() as int;
    if k == 0 {
        return p_unary(s, pos);
    }
    let first = p_level(s, pos, k - 1);
    match first.node {
        None => POut { node: None, err: first.err },
        Some(n0) => {
            let mut b = NodeBuilder::begin(level_rule_x(k), pos, Ghost(len));
            let ghost n0m = n0.model();
            b.child(n0, Ghost(len));
            proof {
                assert(b.kids() =~= seq![n0m]);
            }
            let mut err = first.err;
            loop
                invariant
                    1 <= k <= 4,
                    pos <= s@.len(),
                    len == s@.len() as int,
                    b.inv(len),
                    b.rule == level_rule(k as int),
                    b.start == pos,
                    pos < b.cur <= s@.len(),
                    spec_level(s@, pos as int, k as int) == spec_chain(
                        s@,
                        pos as int,
                        b.cur as int,
                        k as int,
                        b.kids(),
                        err_model(err),
                    ),
                decreases s@.len() - b.cur,
            {
                let cur = b.cur;
                match match_op(s, cur, k) {
                    None => {
                        let ghost ks = b.kids();
                        let n = b.finish(Ghost(len));
                        let e2 = merge_err(err, err_at(cur, op_rule_x(k)));
                        return POut { node: Some(n), err: e2 };
                    },
                    Some(q) => {
                        let te = scan_trivia_end(s, q);
                        let sub = p_level(s, te, k - 1);
                        match sub.node {
                            None => {
                                let n = b.finish(Ghost(len));
                                let e2 = merge_err(err, sub.err);
                                return POut { node: Some(n), err: e2 };
                            },
                            Some(n) => {
                                let ghost ks0 = b.kids();
                                let ghost nm = n.model();
                                b.leaf_to(op_rule_x(k), q, Ghost(len));
                                b.leaf_to(Rule::Trivia, te, Ghost(len));
                                b.child(n, Ghost(len));
                                err = merge_err(err, sub.err);
                                proof {
                                    assert(b.kids() =~= ks0 + seq![
                                        leaf(op_rule(k as int), cur as int, q as int),
                                        leaf(Rule::Trivia, q as int, te as int),
                                        nm,
                                    ]);
                                }
                            },
                        }
                    },
                }
            }
        },
    }
}

// --- statements ---

fn statement_fail(pos: usize) -> (e: ParseError)
    ensures
        err_model(e) == (SpecErr { pos: pos as int, expected: statement_expected() }),
{
    let e = ParseError { pos, expected: vec![Rule::KwRequire, Rule::TypeName, Rule::Identifier] };
    proof {
        assert(e.expected@ =~= statement_expected());
    }
    e
}

fn declaration_fail(pos: usize) -> (e: ParseError)
    ensures
        err_model(e) == (SpecErr { pos: pos as int, expected: declaration_expected() }),
{
    let e = ParseError { pos, expected: vec![Rule::KwContract, Rule::KwFunction] };
    proof {
        assert(e.expected@ =~= declaration_expected());
    }
    e
}

fn p_param(s: &[u8], pos: usize) -> (r: POut)
    requires
        pos <= s@.len(),
    ensures
        good(r, spec_param(s@, pos as int), s@.len() as int, pos as int),
{
    let ghost len = s@.len() as int;
    if pos < s.len() && is_word_start(s[pos]) {
        let we = scan_word_end(s, pos);
        let cw = classify_word(s, pos, we);
        if let WordClass::TypeWord = cw {
            proof {
                lemma_word_end(s@, pos + 1);
            }
            let t1 = scan_trivia_end(s, we);
            if t1 < s.len() && is_word_start(s[t1]) {
                let ie = scan_word_end(s, t1);
                let cw2 = classify_word(s, t1, ie);
                if let WordClass::Plain = cw2 {
                    let te = scan_trivia_end(s, ie);
                    let mut b = NodeBuilder::begin(Rule::Param, pos, Ghost(len));
                    b.leaf_to(Rule::TypeName, we, Ghost(len));
                    b.leaf_to(Rule::Trivia, t1, Ghost(len));
                    b.leaf_to(Rule::Identifier, ie, Ghost(len));
                    b.leaf_to(Rule::Trivia, te, Ghost(len));
                    let ghost ks = b.kids();
                    let n = b.finish(Ghost(len));
                    proof {
                        assert(ks =~= seq![
                            leaf(Rule::TypeName, pos as int, we as int),
                            leaf(Rule::Trivia, we as int, t1 as int),
                            leaf(Rule::Identifier, t1 as int, ie as int),
                            leaf(Rule::Trivia, ie as int, te as int),
                        ]);
                    }
                    POut { node: Some(n), err: neutral_err() }
                } else {
                    POut { node: None, err: err_at(t1, Rule::Identifier) }
                }
            } else {
                POut { node: None, err: err_at(t1, Rule::Identifier) }
            }
        } else {
            POut { node: None, err: err_at(pos, Rule::TypeName) }
        }
    } else {
        POut { node: None, err: err_at(pos, Rule::TypeName) }
    }
}

fn p_param_list(s: &[u8], pos: usize) -> (r: POut)
    requires
        pos <= s@.len(),
    ensures
        good(r, spec_param_list(s@, pos as int), s@.len() as int, pos as int),
{
    let ghost len = s@.len() as int;
    let first = p_param(s, pos);
    match first.node {
        None => POut { node: None, err: first.err },
        Some(n0) => {
            let mut b = NodeBuilder::begin(Rule::ParamList, pos, Ghost(len));
            let ghost n0m = n0.model();
            b.child(n0, Ghost(len));
            proof {
                assert(b.kids() =~= seq![n0m]);
            }
            let mut err = first.err;
            loop
                invariant
                    pos <= s@.len(),
                    len == s@.len() as int,
                    b.inv(len),
                    b.rule == Rule::ParamList,
                    b.start == pos,
                    pos < b.cur <= s@.len(),
                    spec_param_list(s@, pos as int) == spec_plist(
                        s@,
                        pos as int,
                        b.cur as int,
                        b.kids(),
                        err_model(err),
                    ),
                decreases s@.len() - b.cur,
            {
                let cur = b.cur;
                if cur < s.len() && s[cur] == ',' as u8 {
                    let te = scan_trivia_end(s, cur + 1);
                    let sub = p_param(s, te);
                    match sub.node {
                        None => {
                            return POut { node: None, err: merge_err(err, sub.err) };
                        },
                        Some(n) => {
                            let ghost ks0 = b.kids();
                            let ghost nm = n.model();
                            b.leaf_to(Rule::Comma, cur + 1, Ghost(len));
                            b.leaf_to(Rule::Trivia, te, Ghost(len));
                            b.child(n, Ghost(len));
                            err = merge_err(err, sub.err);
                            proof {
                                assert(b.kids() =~= ks0 + seq![
                                    leaf(Rule::Comma, cur as int, cur + 1),
                                    leaf(Rule::Trivia, cur + 1, te as int),
                                    nm,
                                ]);
                            }
                        },
                    }
                } else {
                    let n = b.finish(Ghost(len));
                    let e2 = merge_err(err, err_at(cur, Rule::Comma));
                    return POut { node: Some(n), err: e2 };
                }
            }
        },
    }
}

/// Finishes `= expression ;` onto the tokens already in `b`.
fn p_stmt_tail(s: &[u8], b: NodeBuilder, Ghost(len): Ghost<int>) -> (r: POut)
    requires
        b.inv(len),
        len == s@.len() as int,
        b.start < b.cur,
    ensures
        good(
            r,
            spec_stmt_tail(s@, b.start as int, b.cur as int, b.kids(), b.rule),
            s@.len() as int,
            b.start as int,
        ),
{
    let mut b = b;
    let ghost lead = b.kids();
    let pos = b.cur;
    if pos < s.len() && s[pos] == '=' as u8 && !(pos + 1 < s.len() && s[pos + 1] == '=' as u8) {
        let t1 = scan_trivia_end(s, pos + 1);
        let ex = p_level(s, t1, 4);
        proof {
            assert(spec_expression(s@, t1 as int) == spec_level(s@, t1 as int, 4));
        }
        match ex.node {
            None => POut { node: None, err: ex.err },
            Some(en) => {
                if en.end < s.len() && s[en.end] == ';' as u8 {
                    let te = scan_trivia_end(s, en.end + 1);
                    let close = en.end;
                    let ghost em = en.model();
                    b.leaf_to(Rule::AssignOp, pos + 1, Ghost(len));
                    b.leaf_to(Rule::Trivia, t1, Ghost(len));
                    b.child(en, Ghost(len));
                    b.leaf_to(Rule::Semi, close + 1, Ghost(len));
                    b.leaf_to(Rule::Trivia, te, Ghost(len));
                    let ghost ks = b.kids();
                    let n = b.finish(Ghost(len));
                    proof {
                        assert(ks =~= lead + seq![
                            leaf(Rule::AssignOp, pos as int, pos + 1),
                            leaf(Rule::Trivia, pos + 1, t1 as int),
                            em,
                            leaf(Rule::Semi, em.end, em.end + 1),
                            leaf(Rule::Trivia, em.end + 1, te as int),
                        ]);
                    }
                    POut { node: Some(n), err: ex.err }
                } else {
                    POut { node: None, err: merge_err(ex.err, err_at(en.end, Rule::Semi)) }
                }
            },
        }
    } else {
        POut { node: None, err: err_at(pos, Rule::AssignOp) }
    }
}

fn p_require_stmt(s: &[u8], pos: usize) -> (r: POut)
    requires
        pos <= s@.len(),
    ensures
        good(r, spec_require_stmt(s@, pos as int), s@.len() as int, pos as int),
{
    let ghost len = s@.len() as int;
    let we = scan_word_end(s, pos);
    let t1 = scan_trivia_end(s, we);
    if t1 > pos && t1 < s.len() && s[t1] == '(' as u8 {
        let t2 = scan_trivia_end(s, t1 + 1);
        let ex = p_level(s, t2, 4);
        proof {
            assert(spec_expression(s@, t2 as int) == spec_level(s@, t2 as int, 4));
        }
        match ex.node {
            None => POut { node: None, err: ex.err },
            Some(en) => {
                if en.end < s.len() && s[en.end] == ')' as u8 {
                    let close = en.end;
                    let t3 = scan_trivia_end(s, close + 1);
                    if t3 < s.len() && s[t3] == ';' as u8 {
                        let te = scan_trivia_end(s, t3 + 1);
                        let ghost em = en.model();
                        let mut b = NodeBuilder::begin(Rule::RequireStmt, pos, Ghost(len));
                        b.leaf_to(Rule::KwRequire, we, Ghost(len));
                        b.leaf_to(Rule::Trivia, t1, Ghost(len));
                        b.leaf_to(Rule::LParen, t1 + 1, Ghost(len));
                        b.leaf_to(Rule::Trivia, t2, Ghost(len));
                        b.child(en, Ghost(len));
                        b.leaf_to(Rule::RParen, close + 1, Ghost(len));
                        b.leaf_to(Rule::Trivia, t3, Ghost(len));
                        b.leaf_to(Rule::Semi, t3 + 1, Ghost(len));
                        b.leaf_to(Rule::Trivia, te, Ghost(len));
                        let ghost ks = b.kids();
                        let n = b.finish(Ghost(len));
                        proof {
                            assert(ks =~= seq![
                                leaf(Rule::KwRequire, pos as int, we as int),
                                leaf(Rule::Trivia, we as int, t1 as int),
                                leaf(Rule::LParen, t1 as int, t1 + 1),
                                leaf(Rule::Trivia, t1 + 1, t2 as int),
                                em,
                                leaf(Rule::RParen, em.end, em.end + 1),
                                leaf(Rule::Trivia, em.end + 1, t3 as int),
                                leaf(Rule::Semi, t3 as int, t3 + 1),
                                leaf(Rule::Trivia, t3 + 1, te as int),
                            ]);
                        }
                        POut { node: Some(n), err: ex.err }
                    } else {
                        POut { node: None, err: merge_err(ex.err, err_at(t3, Rule::Semi)) }
                    }
                } else {
                    POut { node: None, err: merge_err(ex.err, err_at(en.end, Rule::RParen)) }
                }
            },
        }
    } else {
        if t1 > pos {
            POut { node: None, err: err_at(t1, Rule::LParen) }
        } else {
            POut { node: None, err: err_at(pos, Rule::LParen) }
        }
    }
}

fn p_var_stmt(s: &[u8], pos: usize) -> (r: POut)
    requires
        pos <= s@.len(),
    ensures
        good(r, spec_var_stmt(s@, pos as int), s@.len() as int, pos as int),
{
    let ghost len = s@.len() as int;
    let we = scan_word_end(s, pos);
    let t1 = scan_trivia_end(s, we);
    if t1 > pos && t1 < s.len() && is_word_start(s[t1]) {
        let ie = scan_word_end(s, t1);
        let cw = classify_word(s, t1, ie);
        if let WordClass::Plain = cw {
            proof {
                lemma_word_end(s@, t1 + 1);
            }
            let t2 = scan_trivia_end(s, ie);
            let mut b = NodeBuilder::begin(Rule::VarStmt, pos, Ghost(len));
            b.leaf_to(Rule::TypeName, we, Ghost(len));
            b.leaf_to(Rule::Trivia, t1, Ghost(len));
            b.leaf_to(Rule::Identifier, ie, Ghost(len));
            b.leaf_to(Rule::Trivia, t2, Ghost(len));
            proof {
                assert(b.kids() =~= seq![
                    leaf(Rule::TypeName, pos as int, we as int),
                    leaf(Rule::Trivia, we as int, t1 as int),
                    leaf(Rule::Identifier, t1 as int, ie as int),
                    leaf(Rule::Trivia, ie as int, t2 as int),
                ]);
            }
            p_stmt_tail(s, b, Ghost(len))
        } else {
            POut { node: None, err: err_at(t1, Rule::Identifier) }
        }
    } else {
        if t1 > pos {
            POut { node: None, err: err_at(t1, Rule::Identifier) }
        } else {
            POut { node: None, err: err_at(pos, Rule::Identifier) }
        }
    }
}

fn p_assign_stmt(s: &[u8], pos: usize) -> (r: POut)
    requires
        pos <= s@.len(),
    ensures
        good(r, spec_assign_stmt(s@, pos as int), s@.len() as int, pos as int),
{
    let ghost len = s@.len() as int;
    let ie = scan_word_end(s, pos);
    let t1 = scan_trivia_end(s, ie);
    if t1 > pos {
        let mut b = NodeBuilder::begin(Rule::AssignStmt, pos, Ghost(len));
        b.leaf_to(Rule::Identifier, ie, Ghost(len));
        b.leaf_to(Rule::Trivia, t1, Ghost(len));
        proof {
            assert(b.kids() =~= seq![
                leaf(Rule::Identifier, pos as int, ie as int),
                leaf(Rule::Trivia, ie as int, t1 as int),
            ]);
        }
        p_stmt_tail(s, b, Ghost(len))
    } else {
        POut { node: None, err: err_at(pos, Rule::Identifier) }
    }
}

fn p_statement(s: &[u8], pos: usize) -> (r: POut)
    requires
        pos <= s@.len(),
    ensures
        good(r, spec_statement(s@, pos as int), s@.len() as int, pos as int),
{
    if pos < s.len() && is_word_start(s[pos]) {
        let we = scan_word_end(s, pos);
        let cw = classify_word(s, pos, we);
        match cw {
            WordClass::Require => p_require_stmt(s, pos),
            WordClass::TypeWord => p_var_stmt(s, pos),
            WordClass::Plain => p_assign_stmt(s, pos),
            _ => POut { node: None, err: statement_fail(pos) },
        }
    } else {
        POut { node: None, err: statement_fail(pos) }
    }
}

// --- declarations ---

/// Collects `statement*` into `b`, returning the deepest failure.
#[verifier::loop_isolation(false)]
#[verifier::rlimit(60)]
fn p_stmt_list(s: &[u8], b: &mut NodeBuilder, e: ParseError, Ghost(len): Ghost<int>) -> (r:
    ParseError)
    requires
        old(b).inv(len),
        len == s@.len() as int,
    ensures
        final(b).inv(len),
        final(b).rule == old(b).rule,
        final(b).start == old(b).start,
        old(b).cur <= final(b).cur,
        spec_stmt_list(s@, old(b).cur as int, old(b).kids(), err_model(e)) == (SpecListOut {
            items: final(b).kids(),
            end: final(b).cur as int,
            err: err_model(r),
        }),
{
    let ghost b0 = *b;
    let mut err = e;
    loop
        invariant
            b.inv(len),
            len == s@.len() as int,
            b.rule == b0.rule,
            b.start == b0.start,
            b0.cur <= b.cur,
            spec_stmt_list(s@, b0.cur as int, b0.kids(), err_model(e)) == spec_stmt_list(
                s@,
                b.cur as int,
                b.kids(),
                err_model(err),
            ),
        decreases s@.len() - b.cur,
    {
        let st = p_statement(s, b.cur);
        match st.node {
            None => {
                return merge_err(err, st.err);
            },
            Some(n) => {
                b.child(n, Ghost(len));
                err = merge_err(err, st.err);
            },
        }
    }
}

/// Collects `function_def*` into `b`, returning the deepest failure.
#[verifier::loop_isolation(false)]
#[verifier::rlimit(60)]
fn p_fn_list(s: &[u8], b: &mut NodeBuilder, e: ParseError, Ghost(len): Ghost<int>) -> (r:
    ParseError)
    requires
        old(b).inv(len),
        len == s@.len() as int,
    ensures
        final(b).inv(len),
        final(b).rule == old(b).rule,
        final(b).start == old(b).start,
        old(b).cur <= final(b).cur,
        spec_fn_list(s@, old(b).cur as int, old(b).kids(), err_model(e)) == (SpecListOut {
            items: final(b).kids(),
            end: final(b).cur as int,
            err: err_model(r),
        }),
    decreases s@.len() - old(b).cur, 20int,
{
    let ghost b0 = *b;
    let mut err = e;
    loop
        invariant
            b.inv(len),
            len == s@.len() as int,
            b.rule == b0.rule,
            b.start == b0.start,
            b0.cur <= b.cur,
            spec_fn_list(s@, b0.cur as int, b0.kids(), err_model(e)) == spec_fn_list(
                s@,
                b.cur as int,
                b.kids(),
                err_model(err),
            ),
        decreases s@.len() - b.cur,
    {
        let cur = b.cur;
        let mut is_fn = false;
        if cur < s.len() && is_word_start(s[cur]) {
            let we = scan_word_end(s, cur);
            let cw = classify_word(s, cur, we);
            if let WordClass::Function = cw {
                is_fn = true;
            }
        }
        if is_fn {
            let fd = p_function_def(s, cur);
            match fd.node {
                None => {
                    return merge_err(err, fd.err);
                },
                Some(n) => {
                    b.child(n, Ghost(len));
                    err = merge_err(err, fd.err);
                },
            }
        } else {
            return merge_err(err, err_at(cur, Rule::KwFunction));
        }
    }
}

fn p_function_def(s: &[u8], pos: usize) -> (r: POut)
    requires
        pos <= s@.len(),
    ensures
        good(r, spec_function_def(s@, pos as int), s@.len() as int, pos as int),
    decreases s@.len() - pos, 19int,
{
    let ghost len = s@.len() as int;
    p_def_body(s, pos, Rule::FunctionDef, Ghost(len))
}

fn p_contract_def(s: &[u8], pos: usize) -> (r: POut)
    requires
        pos <= s@.len(),
    ensures
        good(r, spec_contract_def(s@, pos as int), s@.len() as int, pos as int),
    decreases s@.len() - pos, 21int,
{
    let ghost len = s@.len() as int;
    p_def_body(s, pos, Rule::ContractDef, Ghost(len))
}

/// The common shape of `contract` and `function` definitions: keyword,
/// name, parenthesised optional parameter list, braced body. Only the
/// keyword, the node's rule and the kind of body differ.
#[verifier::rlimit(100)]
fn p_def_body(s: &[u8], pos: usize, rule: Rule, Ghost(len): Ghost<int>) -> (r: POut)
    requires
        pos <= s@.len(),
        len == s@.len() as int,
        rule == Rule::FunctionDef || rule == Rule::ContractDef,
    ensures
        rule == Rule::FunctionDef ==> good(
            r,
            spec_function_def(s@, pos as int),
            s@.len() as int,
            pos as int,
        ),
        rule == Rule::ContractDef ==> good(
            r,
            spec_contract_def(s@, pos as int),
            s@.len() as int,
            pos as int,
        ),
    decreases s@.len() - pos, 18int,
{
    let is_fn = match rule {
        Rule::FunctionDef => true,
        _ => false,
    };
    let kw_rule = if is_fn {
        Rule::KwFunction
    } else {
        Rule::KwContract
    };
    let we = scan_word_end(s, pos);
    let t1 = scan_trivia_end(s, we);
    if !(t1 > pos) {
        return POut { node: None, err: err_at(pos, kw_rule) };
    }
    if !(t1 < s.len() && is_word_start(s[t1])) {
        return POut { node: None, err: err_at(t1, Rule::Identifier) };
    }
    let ie = scan_word_end(s, t1);
    let cw = classify_word(s, t1, ie);
    match cw {
        WordClass::Plain => {},
        _ => {
            return POut { node: None, err: err_at(t1, Rule::Identifier) };
        },
    }
    proof {
        lemma_word_end(s@, t1 + 1);
    }
    let t2 = scan_trivia_end(s, ie);
    if !(t2 < s.len() && s[t2] == '(' as u8) {
        return POut { node: None, err: err_at(t2, Rule::LParen) };
    }
    let t3 = scan_trivia_end(s, t2 + 1);
    let mut b = NodeBuilder::begin(rule, pos, Ghost(len));
    b.leaf_to(kw_rule, we, Ghost(len));
    b.leaf_to(Rule::Trivia, t1, Ghost(len));
    b.leaf_to(Rule::Identifier, ie, Ghost(len));
    b.leaf_to(Rule::Trivia, t2, Ghost(len));
    b.leaf_to(Rule::LParen, t2 + 1, Ghost(len));
    b.leaf_to(Rule::Trivia, t3, Ghost(len));
    proof {
        assert(b.kids() =~= seq![
            leaf(if rule == Rule::FunctionDef {
                Rule::KwFunction
            } else {
                Rule::KwContract
            }, pos as int, we as int),
            leaf(Rule::Trivia, we as int, t1 as int),
            leaf(Rule::Identifier, t1 as int, ie as int),
            leaf(Rule::Trivia, ie as int, t2 as int),
            leaf(Rule::LParen, t2 as int, t2 + 1),
            leaf(Rule::Trivia, t2 + 1, t3 as int),
        ]);
    }
    let mut has_params = false;
    if t3 < s.len() && is_word_start(s[t3]) {
        let pwe = scan_word_end(s, t3);
        let pcw = classify_word(s, t3, pwe);
        if let WordClass::TypeWord = pcw {
            has_params = true;
        }
    }
    let perr: ParseError;
    if has_params {
        let pl = p_param_list(s, t3);
        match pl.node {
            None => {
                return POut { node: None, err: pl.err };
            },
            Some(pn) => {
                b.child(pn, Ghost(len));
                perr = pl.err;
            },
        }
    } else {
        perr = neutral_err();
    }
    let p4 = b.cur;
    if !(p4 < s.len() && s[p4] == ')' as u8) {
        return POut { node: None, err: merge_err(perr, err_at(p4, Rule::RParen)) };
    }
    let t5 = scan_trivia_end(s, p4 + 1);
    if !(t5 < s.len() && s[t5] == '{' as u8) {
        return POut { node: None, err: merge_err(perr, err_at(t5, Rule::LBrace)) };
    }
    let t6 = scan_trivia_end(s, t5 + 1);
    let ghost before_close = b.kids();
    b.leaf_to(Rule::RParen, p4 + 1, Ghost(len));
    b.leaf_to(Rule::Trivia, t5, Ghost(len));
    b.leaf_to(Rule::LBrace, t5 + 1, Ghost(len));
    b.leaf_to(Rule::Trivia, t6, Ghost(len));
    proof {
        assert(b.kids() =~= before_close + seq![
            leaf(Rule::RParen, p4 as int, p4 + 1),
            leaf(Rule::Trivia, p4 + 1, t5 as int),
            leaf(Rule::LBrace, t5 as int, t5 + 1),
            leaf(Rule::Trivia, t5 + 1, t6 as int),
        ]);
    }
    let lerr = if is_fn {
        p_stmt_list(s, &mut b, perr, Ghost(len))
    } else {
        p_fn_list(s, &mut b, perr, Ghost(len))
    };
    let close = b.cur;
    if !(close < s.len() && s[close] == '}' as u8) {
        return POut { node: None, err: merge_err(lerr, err_at(close, Rule::RBrace)) };
    }
    let te = scan_trivia_end(s, close + 1);
    let ghost before_end = b.kids();
    b.leaf_to(Rule::RBrace, close + 1, Ghost(len));
    b.leaf_to(Rule::Trivia, te, Ghost(len));
    proof {
        assert(b.kids() =~= before_end + seq![
            leaf(Rule::RBrace, close as int, close + 1),
            leaf(Rule::Trivia, close + 1, te as int),
        ]);
    }
    let n = b.finish(Ghost(len));
    POut { node: Some(n), err: lerr }
}

fn p_declaration(s: &[u8], pos: usize) -> (r: POut)
    requires
        pos <= s@.len(),
    ensures
        good(r, spec_declaration(s@, pos as int), s@.len() as int, pos as int),
{
    if pos < s.len() && is_word_start(s[pos]) {
        let we = scan_word_end(s, pos);
        let cw = classify_word(s, pos, we);
        match cw {
            WordClass::Contract => p_contract_def(s, pos),
            WordClass::Function => p_function_def(s, pos),
            _ => POut { node: None, err: declaration_fail(pos) },
        }
    } else {
        POut { node: None, err: declaration_fail(pos) }
    }
}

/// Collects `declaration*` into `b`, returning the deepest failure.
#[verifier::loop_isolation(false)]
#[verifier::rlimit(60)]
fn p_decl_list(s: &[u8], b: &mut NodeBuilder, e: ParseError, Ghost(len): Ghost<int>) -> (r:
    ParseError)
    requires
        old(b).inv(len),
        len == s@.len() as int,
    ensures
        final(b).inv(len),
        final(b).rule == old(b).rule,
        final(b).start == old(b).start,
        old(b).cur <= final(b).cur,
        spec_decl_list(s@, old(b).cur as int, old(b).kids(), err_model(e)) == (SpecListOut {
            items: final(b).kids(),
            end: final(b).cur as int,
            err: err_model(r),
        }),
{
    let ghost b0 = *b;
    let mut err = e;
    loop
        invariant
            b.inv(len),
            len == s@.len() as int,
            b.rule == b0.rule,
            b.start == b0.start,
            b0.cur <= b.cur,
            spec_decl_list(s@, b0.cur as int, b0.kids(), err_model(e)) == spec_decl_list(
                s@,
                b.cur as int,
                b.kids(),
                err_model(err),
            ),
        decreases s@.len() - b.cur,
    {
        let d = p_declaration(s, b.cur);
        match d.node {
            None => {
                return merge_err(err, d.err);
            },
            Some(n) => {
                b.child(n, Ghost(len));
                err = merge_err(err, d.err);
            },
        }
    }
}

// --- the engine's entry points ---

/// The DSL's grammar engine. The grammar it matches is fixed at build
/// time; `parse_source_file` and `parse_expression` are its two entry
/// productions.
pub struct CashScriptParser;

/// A successful parse: the tree rooted at the entry production.
#[derive(Debug, PartialEq, Eq)]
pub struct ParseTree {
    pub root: Node,
}

/// Matches the whole input against the `source_file` production.
/// Succeeds exactly when the grammar derives the entire input; trailing
/// bytes fail the parse. On failure the error carries the deepest
/// position reached and the rules expected there.
pub fn parse_source_file(input: &str) -> (r: Result<ParseTree, ParseError>)
    ensures
        ({
            let o = spec_source_file(input.spec_bytes());
            match r {
                Ok(t) => {
                    &&& o.res is Some
                    &&& t.root.model() == o.res->0
                    &&& t.root.model().wf(input.spec_bytes().len() as int)
                    &&& t.root.rule == Rule::SourceFile
                    &&& t.root.start == 0
                    &&& t.root.end == input.spec_bytes().len()
                },
                Err(e) => {
                    &&& o.res is None
                    &&& err_model(e) == o.err
                },
            }
        }),
{
    let s = input.as_bytes();
    let ghost len = s@.len() as int;
    let t0 = scan_trivia_end(s, 0);
    let mut b = NodeBuilder::begin(Rule::SourceFile, 0, Ghost(len));
    b.leaf_to(Rule::Trivia, t0, Ghost(len));
    proof {
        assert(b.kids() =~= seq![leaf(Rule::Trivia, 0, t0 as int)]);
    }
    let e = p_decl_list(s, &mut b, neutral_err(), Ghost(len));
    if b.cur == s.len() {
        let n = b.finish(Ghost(len));
        Ok(ParseTree { root: n })
    } else {
        let cur = b.cur;
        Err(merge_err(e, err_at(cur, Rule::Eoi)))
    }
}

/// Matches the whole input against the `expression` production: a
/// single standalone expression, with no file-level syntax around it.
pub fn parse_expression(input: &str) -> (r: Result<ParseTree, ParseError>)
    ensures
        ({
            let o = spec_expression_entry(input.spec_bytes());
            match r {
                Ok(t) => {
                    &&& o.res is Some
                    &&& t.root.model() == o.res->0
                    &&& t.root.model().wf(input.spec_bytes().len() as int)
                    &&& t.root.rule == Rule::Expression
                    &&& t.root.start == 0
                    &&& t.root.end == input.spec_bytes().len()
                },
                Err(e) => {
                    &&& o.res is None
                    &&& err_model(e) == o.err
                },
            }
        }),
{
    let s = input.as_bytes();
    let ghost len = s@.len() as int;
    let t0 = scan_trivia_end(s, 0);
    let ex = p_level(s, t0, 4);
    proof {
        assert(spec_expression(s@, t0 as int) == spec_level(s@, t0 as int, 4));
    }
    match ex.node {
        None => Err(ex.err),
        Some(n) => {
            if n.end == s.len() {
                let ghost nm = n.model();
                let end = n.end;
                let tl = Node { rule: Rule::Trivia, start: 0, end: t0, children: Vec::new() };
                proof {
                    assert(models_of(tl.children@) =~= Seq::<SpecNode>::empty());
                    assert(tl.model() == leaf(Rule::Trivia, 0, t0 as int));
                }
                let mut cs: Vec<Node> = Vec::new();
                cs.push(tl);
                let mut n = n;
                let ghost ncs = n.children@;
                cs.append(&mut n.children);
                let root = Node { rule: Rule::Expression, start: 0, end, children: cs };
                proof {
                    let tlm = leaf(Rule::Trivia, 0, t0 as int);
                    assert(root.children@ =~= seq![tl] + ncs);
                    lemma_models_of_concat(seq![tl], ncs);
                    assert(seq![tl].drop_last() =~= Seq::<Node>::empty());
                    assert(models_of(seq![tl]) =~= seq![tlm]);
                    assert(models_of(ncs) == nm.children);
                    assert(root.model().children =~= seq![tlm] + nm.children);
                    assert(root.model() == spec_expression_entry(s@).res->0);
                    // well-formedness: the trivia leaf, then the
                    // operand children, tile the whole input
                    assert(nm.children.len() > 0);
                    assert(wf_children(nm.children, len, t0 as int, end as int));
                    assert(tlm.wf(len));
                    assert((seq![tlm] + nm.children).len() > 0);
                    assert((seq![tlm] + nm.children)[0] == tlm);
                    assert((seq![tlm] + nm.children).drop_first() =~= nm.children);
                    assert(wf_children(seq![tlm] + nm.children, len, 0, end as int));
                    assert(root.model().wf(len));
                }
                Ok(ParseTree { root })
            } else {
                let at = n.end;
                Err(merge_err(ex.err, err_at(at, Rule::Eoi)))
            }
        },
    }
}

} // verus!
