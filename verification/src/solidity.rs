//! The adapter for the Solidity-like language. Parsing is delegated to
//! the outside `solang_parser` crate; this module normalizes its result
//! into one owned value bundling the syntax tree with the comments
//! found beside it, and its failure into the parser's complete,
//! non-empty list of diagnostics. Unlike the DSL engine, that parser
//! recovers from individual errors and may report several at once; this
//! module preserves that multi-error behaviour.
//!
//! Comments and diagnostics are handed out as plain-value records of
//! the library, and the contracts pin each whole list to a name of the
//! input text: what the foreign parser returns depends on nothing but
//! the input, so re-parsing yields the same lists. The syntax tree
//! itself is an opaque foreign value; no name over plain values can
//! stand for it, so the contracts say nothing about its content and
//! the tests check it at runtime.

use vstd::prelude::*;

use solang_parser::diagnostics::Level;
use solang_parser::pt::Comment;
use solang_parser::pt::Loc;

verus! {

#[verifier::external_type_specification]
#[verifier::external_body]
pub struct ExSourceUnit(solang_parser::pt::SourceUnit);

#[verifier::external_type_specification]
#[verifier::external_body]
pub struct ExComment(solang_parser::pt::Comment);

#[verifier::external_type_specification]
#[verifier::external_body]
pub struct ExDiagnostic(solang_parser::diagnostics::Diagnostic);

#[verifier::external_type_specification]
#[verifier::external_body]
pub struct ExLoc(solang_parser::pt::Loc);

/// A source location, mirroring the foreign parser's own variants one
/// for one; parsed source always carries the file form.
#[derive(Clone, Copy, PartialEq, Eq, Structural, Debug)]
pub enum SrcSpan {
    Builtin,
    CommandLine,
    Implicit,
    Codegen,
    File { file: usize, start: usize, end: usize },
}

/// The four comment forms of the foreign language.
#[derive(Clone, Copy, PartialEq, Eq, Structural, Debug)]
pub enum CommentKind {
    Line,
    Block,
    DocLine,
    DocBlock,
}

/// One comment occurrence: its form, its span, and its full text
/// (delimiters included), kept separate from the syntax tree.
#[derive(Debug, PartialEq, Eq)]
pub struct CommentInfo {
    pub kind: CommentKind,
    pub span: SrcSpan,
    pub text: String,
}

/// The severity of a diagnostic, mirroring the foreign parser's levels.
#[derive(Clone, Copy, PartialEq, Eq, Structural, Debug)]
pub enum DiagLevel {
    Debug,
    Info,
    Warning,
    Error,
}

/// One diagnostic: severity, source span and message — what a caller
/// needs to render the problem.
#[derive(Debug, PartialEq, Eq)]
pub struct DiagInfo {
    pub level: DiagLevel,
    pub span: SrcSpan,
    pub message: String,
}

/// The mathematical value of a comment record.
pub struct SpecComment {
    pub kind: CommentKind,
    pub span: SrcSpan,
    pub text: Seq<char>,
}

/// The mathematical value of a diagnostic record.
pub struct SpecDiag {
    pub level: DiagLevel,
    pub span: SrcSpan,
    pub message: Seq<char>,
}

impl CommentInfo {
    pub open spec fn model(self) -> SpecComment {
        SpecComment { kind: self.kind, span: self.span, text: self.text@ }
    }
}

impl DiagInfo {
    pub open spec fn model(self) -> SpecDiag {
        SpecDiag { level: self.level, span: self.span, message: self.message@ }
    }
}

pub open spec fn comments_model(v: Seq<CommentInfo>) -> Seq<SpecComment> {
    v.map_values(|c: CommentInfo| c.model())
}

pub open spec fn diags_model(v: Seq<DiagInfo>) -> Seq<SpecDiag> {
    v.map_values(|d: DiagInfo| d.model())
}

/// Whether the Solidity-like language's grammar accepts the input.
/// Stating the grammar itself would take pages; acceptance is a
/// function of the input text alone (the file-context value this
/// module passes along is fixed), so it is only named here, and the
/// adapter's contract is exact relative to this name.
pub uninterp spec fn solidity_accepts(s: Seq<char>) -> bool;

/// The comments the foreign parser's lexer collects from the input, in
/// source order, as plain-value records. A function of the input text
/// alone, named because only the foreign grammar defines it.
pub uninterp spec fn solidity_comments(s: Seq<char>) -> Seq<SpecComment>;

/// The complete list of diagnostics the foreign parser accumulates on
/// an input it rejects, in the order it reports them. A function of
/// the input text alone, named because only the foreign grammar
/// defines it.
pub uninterp spec fn solidity_diags(s: Seq<char>) -> Seq<SpecDiag>;

/// The root syntax tree of one source input, bundled with every
/// comment found in it, in source order. Created only on full success.
#[derive(Debug)]
pub struct SolidityParseResult {
    pub source_unit: solang_parser::pt::SourceUnit,
    pub comments: Vec<CommentInfo>,
}

/// Relies on solang_parser::pt::Loc: a location is one of these five
/// variants; this moves its fields across, one arm per variant.
#[verifier::external_body]
fn span_info(loc: Loc) -> SrcSpan {
    match loc {
        Loc::Builtin => SrcSpan::Builtin,
        Loc::CommandLine => SrcSpan::CommandLine,
        Loc::Implicit => SrcSpan::Implicit,
        Loc::Codegen => SrcSpan::Codegen,
        Loc::File(file, start, end) => SrcSpan::File { file, start, end },
    }
}

/// Relies on solang_parser::pt::Comment: each variant carries its
/// location and text; this moves them across, one arm per variant.
/// Called only from `solang_parse`'s body.
#[verifier::external_body]
fn comment_info(c: Comment) -> CommentInfo {
    match c {
        Comment::Line(l, text) => CommentInfo { kind: CommentKind::Line, span: span_info(l), text },
        Comment::Block(l, text) => CommentInfo { kind: CommentKind::Block, span: span_info(l), text },
        Comment::DocLine(l, text) => CommentInfo { kind: CommentKind::DocLine, span: span_info(l), text },
        Comment::DocBlock(l, text) => CommentInfo { kind: CommentKind::DocBlock, span: span_info(l), text },
    }
}

/// Relies on solang_parser::diagnostics::{Diagnostic, Level}: this
/// moves a diagnostic's level, location and message across, one arm
/// per level variant. Called only from `solang_parse`'s body.
#[verifier::external_body]
fn diag_info(d: solang_parser::diagnostics::Diagnostic) -> DiagInfo {
    let level = match d.level {
        Level::Debug => DiagLevel::Debug,
        Level::Info => DiagLevel::Info,
        Level::Warning => DiagLevel::Warning,
        Level::Error => DiagLevel::Error,
    };
    DiagInfo { level, span: span_info(d.loc), message: d.message }
}

/// Relies on solang_parser::parse: given source text and a file
/// number, it returns either the parsed source unit with the comments
/// its lexer collected, in source order, or the complete list of
/// diagnostics it accumulated; its every error path pushes at least
/// one diagnostic, each built at error severity, before returning, and
/// it reads nothing but its arguments — the result is a function of
/// the input text and the fixed file number alone. The body converts
/// each comment and diagnostic into the library's plain-value record.
#[verifier::external_body]
fn solang_parse(input: &str) -> (r: Result<
    (solang_parser::pt::SourceUnit, Vec<CommentInfo>),
    Vec<DiagInfo>,
>)
    ensures
        r is Ok <==> solidity_accepts(input@),
        r matches Ok(p) ==> comments_model(p.1@) == solidity_comments(input@),
        r matches Err(d) ==> {
            &&& diags_model(d@) == solidity_diags(input@)
            &&& d@.len() >= 1
            &&& forall|i: int| 0 <= i < d@.len() ==> (#[trigger] d@[i]).level == DiagLevel::Error
        },
{
    match solang_parser::parse(input, 0) {
        Ok((unit, comments)) => Ok((unit, comments.into_iter().map(comment_info).collect())),
        Err(diagnostics) => Err(diagnostics.into_iter().map(diag_info).collect()),
    }
}

/// Parses the Solidity-like language. On success the result owns the
/// whole syntax tree and every comment of the input, in source order —
/// the comment list is pinned to `solidity_comments` of the input; on
/// failure it carries the complete, non-empty list of diagnostics the
/// parser accumulated while recovering — pinned to `solidity_diags` of
/// the input, each entry at error severity, never just the first
/// error. Success and diagnostics are mutually exclusive by the result
/// type itself.
pub fn parse_solidity_source(input: &str) -> (r: Result<SolidityParseResult, Vec<DiagInfo>>)
    ensures
        r is Ok <==> solidity_accepts(input@),
        r matches Ok(res) ==> comments_model(res.comments@) == solidity_comments(input@),
        r matches Err(d) ==> {
            &&& diags_model(d@) == solidity_diags(input@)
            &&& d@.len() >= 1
            &&& forall|i: int| 0 <= i < d@.len() ==> (#[trigger] d@[i]).level == DiagLevel::Error
        },
{
    match solang_parse(input) {
        Ok((source_unit, comments)) => Ok(SolidityParseResult { source_unit, comments }),
        Err(diagnostics) => Err(diagnostics),
    }
}

/// The adapter holds no hidden state: the comment list it returns is a
/// function of the input text alone, so two successful parses of the
/// same input carry structurally equal comment lists. (The opaque
/// syntax tree cannot be related this way; the tests compare it at
/// runtime.)
pub proof fn lemma_solidity_comments_deterministic(
    s: Seq<char>,
    c1: Seq<SpecComment>,
    c2: Seq<SpecComment>,
)
    requires
        c1 == solidity_comments(s),
        c2 == solidity_comments(s),
    ensures
        c1 == c2,
{
}

/// The same for the diagnostics of two failing parses of one input.
pub proof fn lemma_solidity_diags_deterministic(s: Seq<char>, d1: Seq<SpecDiag>, d2: Seq<SpecDiag>)
    requires
        d1 == solidity_diags(s),
        d2 == solidity_diags(s),
    ensures
        d1 == d2,
{
}

} // verus!
