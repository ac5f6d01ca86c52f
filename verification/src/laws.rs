//! Laws of the DSL engine, stated over the grammar's specification.
//! Together with the entry points' contracts — which pin each call's
//! result to that specification — they carry over to every executable
//! parse.

use vstd::prelude::*;

use crate::engine::is_keyword;
use crate::engine::kw_contract;
use crate::engine::kw_false;
use crate::engine::kw_function;
use crate::engine::kw_true;
use crate::engine::leaf;
use crate::engine::neutral;
use crate::engine::spec_decl_list;
use crate::engine::spec_declaration;
use crate::engine::spec_expression;
use crate::engine::spec_expression_entry;
use crate::engine::spec_level;
use crate::engine::spec_primary;
use crate::engine::spec_source_file;
use crate::engine::spec_unary;
use crate::engine::unary_op_at;
use crate::engine::word_at;
use crate::engine::SpecOut;
use crate::scan::adv_trivia;
use crate::scan::is_word_start_b;
use crate::tree::leaf_text;
use crate::tree::lemma_leaf_text;
use crate::tree::Rule;
use crate::tree::SpecNode;

verus! {

/// The leaves of a well-formed tree that covers the whole input
/// reconstruct the input exactly: no text is dropped and none is
/// duplicated. `parse_source_file` and `parse_expression` both return
/// their trees with exactly this well-formedness, rooted at byte 0 and
/// ending at the input's length, so the law holds of every successful
/// parse through either entry point.
pub proof fn lemma_leaves_reconstruct(t: SpecNode, s: Seq<u8>)
    requires
        t.wf(s.len() as int),
        t.start == 0,
        t.end == s.len(),
    ensures
        leaf_text(t, s) == s,
{
    lemma_leaf_text(t, s);
    assert(s.subrange(0, s.len() as int) =~= s);
}

/// A successful source-file parse consumes the whole input: the root
/// covers every byte. An otherwise valid file with trailing bytes that
/// no declaration derives can therefore never be a false success — the
/// parse either covers those bytes or fails.
pub proof fn lemma_success_consumes_all(s: Seq<u8>)
    requires
        spec_source_file(s).res is Some,
    ensures
        spec_source_file(s).res->0.end == s.len(),
{
}

/// When a source file is rejected, the reported position lies at or
/// after the point where declaration parsing stopped — the end of the
/// last construct the grammar derived, or the end of the leading
/// trivia when it derived none. An otherwise valid file spoiled by a
/// trailing character is therefore reported at or after its last
/// valid construct, never somewhere inside the already-derived prefix.
pub proof fn lemma_error_after_last_construct(s: Seq<u8>)
    requires
        spec_source_file(s).res is None,
    ensures
        spec_source_file(s).err.pos >= spec_decl_list(
            s,
            adv_trivia(s, 0),
            seq![leaf(Rule::Trivia, 0, adv_trivia(s, 0))],
            neutral(),
        ).end,
{
}

/// The engine holds no hidden state: the outcome of parsing a source
/// file — tree, spans and diagnostic alike — is a function of the
/// input text alone, so two parses of the same input are structurally
/// equal.
pub proof fn lemma_source_file_deterministic(s: Seq<u8>, r1: SpecOut, r2: SpecOut)
    requires
        r1 == spec_source_file(s),
        r2 == spec_source_file(s),
    ensures
        r1 == r2,
{
}

/// The same, for the expression entry point.
pub proof fn lemma_expression_deterministic(s: Seq<u8>, r1: SpecOut, r2: SpecOut)
    requires
        r1 == spec_expression_entry(s),
        r2 == spec_expression_entry(s),
    ensures
        r1 == r2,
{
}

/// A primary expression never begins with a reserved word other than
/// the boolean literals.
proof fn lemma_primary_fails_on_keyword(s: Seq<u8>, pos: int)
    requires
        0 <= pos < s.len(),
        is_word_start_b(s[pos]),
        is_keyword(word_at(s, pos)),
        word_at(s, pos) != kw_true(),
        word_at(s, pos) != kw_false(),
    ensures
        spec_primary(s, pos).res is None,
{
}

/// Nor does any precedence level above it.
proof fn lemma_level_fails_on_keyword(s: Seq<u8>, pos: int, k: int)
    requires
        0 <= k <= 4,
        0 <= pos < s.len(),
        is_word_start_b(s[pos]),
        is_keyword(word_at(s, pos)),
        word_at(s, pos) != kw_true(),
        word_at(s, pos) != kw_false(),
    ensures
        spec_level(s, pos, k).res is None,
    decreases k,
{
    if k <= 0 {
        lemma_primary_fails_on_keyword(s, pos);
        assert(!unary_op_at(s, pos));
        assert(spec_unary(s, pos) == spec_primary(s, pos));
        assert(spec_level(s, pos, k) == spec_unary(s, pos));
    } else {
        lemma_level_fails_on_keyword(s, pos, k - 1);
        assert(spec_level(s, pos, k - 1).res is None);
        assert(spec_level(s, pos, k).res is None);
    }
}

/// Entry-point selection changes acceptance: an input that the
/// source-file production accepts with at least one declaration — its
/// root then has the declaration beside the leading-trivia leaf — is
/// rejected by the expression production, because a declaration begins
/// with a reserved word that no expression may begin with. The two
/// entry points are not aliases.
#[verifier::rlimit(100)]
pub proof fn lemma_expression_rejects_declarations(s: Seq<u8>)
    requires
        spec_source_file(s).res is Some,
        spec_source_file(s).res->0.children.len() > 1,
    ensures
        spec_expression_entry(s).res is None,
{
    let t0 = adv_trivia(s, 0);
    let dl = spec_decl_list(s, t0, seq![leaf(Rule::Trivia, 0, t0)], neutral());
    let d = spec_declaration(s, t0);
    assert(spec_source_file(s).res->0.children == dl.items);
    if d.res is None {
        assert(dl.items.len() == 1);
        assert(false);
    }
    assert(t0 < s.len() && is_word_start_b(s[t0]));
    let w = word_at(s, t0);
    assert(w == kw_contract() || w == kw_function());
    assert(kw_contract().len() == 8);
    assert(kw_function().len() == 8);
    assert(kw_true().len() == 4);
    assert(kw_false().len() == 5);
    lemma_level_fails_on_keyword(s, t0, 4);
    assert(spec_expression(s, t0).res is None);
}

} // verus!
