//! Parsed math receipts: the source, its AST, the canonical source and the
//! fingerprints that bind them, and their recomputation.
use vstd::prelude::*;
use crate::digest::{sha256, sha256_of, fingerprint_eq};
use crate::math_ast::{Row, TermView, canonical_row, format_row};
use crate::math_encode::{encode_ast, encoded_ast, measure_ast, row_nodes, row_height};
use crate::math_grammar::{ParseFailure, ParseState, parse_source};
use crate::math_parse::Parser;
use crate::math_preflight::MathSourcePreflight;
use crate::math_source::{
    MathParseLimits, MathSourceError, MathSourceErrorKind, MATH_AST_FINGERPRINT_ID,
    MATH_FORMATTER_ID, MATH_PARSER_ID, MATH_SOURCE_ID, error_at,
};
use crate::math_validate::{refused_at, source_error, to_source_error, validate_source_chars};
use crate::text::{
    decimal, json_string, push_hash, push_json_str, push_u64, quoted_hex, str_chars,
    string_from_chars,
};

verus! {

/// UTF-8 bytes of a text.
pub open spec fn utf8_bytes(text: Seq<char>) -> Seq<u8> {
    vstd::utf8::encode_utf8(text)
}

/// SHA-256 of the UTF-8 bytes of a text.
pub open spec fn text_fingerprint(text: Seq<char>) -> Seq<u8> {
    sha256_of(utf8_bytes(text))
}

pub(crate) fn fingerprint_text(text: &String) -> (digest: [u8; 32])
    ensures
        digest@ == text_fingerprint(text@),
{
    sha256(text.as_str().as_bytes())
}

/// Admission and grammar of one source: a refused character or the first
/// grammar refusal, with its UTF-8 byte offset; else the AST and its charge.
pub open spec fn checked_parse(s: Seq<char>, limits: MathParseLimits) -> Result<
    (Seq<TermView>, ParseState),
    MathSourceError,
> {
    match refused_at(s) {
        Some(i) => Err(source_error(s, ParseFailure { kind: MathSourceErrorKind::ForbiddenByte, pos: i })),
        None => match parse_source(s, limits) {
            Err(f) => Err(source_error(s, f)),
            Ok(x) => Ok(x),
        },
    }
}

/// What `parse_math_source` decides: the source is admitted and parsed, its
/// canonical source parses again under the same limits, and the two ASTs
/// have the same canonical JSON; else the first refusal.
pub open spec fn parse_outcome(s: Seq<char>, limits: MathParseLimits) -> Result<
    (Seq<TermView>, ParseState),
    MathSourceError,
> {
    match checked_parse(s, limits) {
        Err(e) => Err(e),
        Ok((root, st)) => match checked_parse(canonical_row(root), limits) {
            Err(e) => Err(e),
            Ok((again, _)) => if encoded_ast(again) == encoded_ast(root) {
                Ok((root, st))
            } else {
                Err(error_at(MathSourceErrorKind::ReceiptMismatch, 0))
            },
        },
    }
}

/// Canonical JSON of a parsed-source receipt.
pub open spec fn parsed_receipt_jcs(
    source_sha256: Seq<u8>,
    ast_fingerprint: Seq<u8>,
    ast_node_count: nat,
    ast_depth: nat,
    canonical_source: Seq<char>,
) -> Seq<char> {
    "{\"algorithm\":\"typaxis.math-parsed-source-receipt/1\",\"ast_depth\":"@ + decimal(ast_depth)
        + ",\"ast_fingerprint\":"@ + quoted_hex(ast_fingerprint) + ",\"ast_fingerprint_algorithm\":"@
        + json_string(MATH_AST_FINGERPRINT_ID@) + ",\"ast_node_count\":"@ + decimal(ast_node_count)
        + ",\"canonical_source\":"@ + json_string(canonical_source) + ",\"formatter\":"@
        + json_string(MATH_FORMATTER_ID@) + ",\"parser\":"@ + json_string(MATH_PARSER_ID@)
        + ",\"source_identity\":"@ + json_string(MATH_SOURCE_ID@) + ",\"source_sha256\":"@
        + quoted_hex(source_sha256) + "}"@
}

#[derive(Debug)]
pub(crate) struct MathAst {
    pub(crate) root: Row,
}

/// A source admitted by the grammar, bound to its AST, canonical source and
/// fingerprints.
#[derive(Debug)]
pub struct ParsedMathReceipt {
    source: String,
    source_sha256: [u8; 32],
    ast: MathAst,
    ast_node_count: u64,
    ast_depth: u32,
    ast_jcs: String,
    ast_fingerprint: [u8; 32],
    canonical_source: String,
    receipt_jcs: String,
    receipt_fingerprint: [u8; 32],
}

impl ParsedMathReceipt {
    pub closed spec fn spec_source(&self) -> Seq<char> {
        self.source@
    }

    pub closed spec fn spec_source_sha256(&self) -> Seq<u8> {
        self.source_sha256@
    }

    pub closed spec fn spec_ast(&self) -> Seq<TermView> {
        self.ast.root.view()
    }

    pub closed spec fn spec_ast_node_count(&self) -> u64 {
        self.ast_node_count
    }

    pub closed spec fn spec_ast_depth(&self) -> u32 {
        self.ast_depth
    }

    pub closed spec fn spec_ast_jcs(&self) -> Seq<char> {
        self.ast_jcs@
    }

    pub closed spec fn spec_ast_fingerprint(&self) -> Seq<u8> {
        self.ast_fingerprint@
    }

    pub closed spec fn spec_canonical_source(&self) -> Seq<char> {
        self.canonical_source@
    }

    pub closed spec fn spec_canonical_jcs(&self) -> Seq<char> {
        self.receipt_jcs@
    }

    pub closed spec fn spec_fingerprint(&self) -> Seq<u8> {
        self.receipt_fingerprint@
    }

    /// Every field is what parsing `source` into `root` with charge `st`
    /// computes.
    pub open spec fn issued_for(&self, source: Seq<char>, root: Seq<TermView>, st: ParseState) -> bool {
        &&& self.spec_source() == source
        &&& self.spec_source_sha256() == sha256_of(utf8_bytes(source))
        &&& self.spec_ast() == root
        &&& self.spec_ast_node_count() == st.count
        &&& self.spec_ast_depth() == st.depth
        &&& self.spec_ast_jcs() == encoded_ast(root)
        &&& self.spec_ast_fingerprint() == text_fingerprint(encoded_ast(root))
        &&& self.spec_canonical_source() == canonical_row(root)
        &&& self.spec_canonical_jcs() == parsed_receipt_jcs(
            sha256_of(utf8_bytes(source)),
            text_fingerprint(encoded_ast(root)),
            st.count as nat,
            st.depth as nat,
            canonical_row(root),
        )
        &&& self.spec_fingerprint() == text_fingerprint(self.spec_canonical_jcs())
    }

    /// What `verify` recomputes and compares with the stored fields.
    pub open spec fn consistent(&self) -> bool {
        let root = self.spec_ast();
        &&& row_nodes(root) <= u64::MAX
        &&& row_height(root) < u32::MAX
        &&& self.spec_source_sha256() == sha256_of(utf8_bytes(self.spec_source()))
        &&& self.spec_ast_node_count() == row_nodes(root)
        &&& self.spec_ast_depth() == row_height(root)
        &&& self.spec_ast_jcs() == encoded_ast(root)
        &&& self.spec_ast_fingerprint() == text_fingerprint(encoded_ast(root))
        &&& self.spec_canonical_source() == canonical_row(root)
        &&& self.spec_canonical_jcs() == parsed_receipt_jcs(
            sha256_of(utf8_bytes(self.spec_source())),
            text_fingerprint(encoded_ast(root)),
            row_nodes(root),
            row_height(root),
            canonical_row(root),
        )
        &&& self.spec_fingerprint() == text_fingerprint(self.spec_canonical_jcs())
    }

    pub fn source(&self) -> (source: &str)
        ensures
            source@ == self.spec_source(),
    {
        self.source.as_str()
    }

    pub fn source_sha256(&self) -> (digest: [u8; 32])
        ensures
            digest@ == self.spec_source_sha256(),
    {
        self.source_sha256
    }

    pub fn ast_node_count(&self) -> (count: u64)
        ensures
            count == self.spec_ast_node_count(),
    {
        self.ast_node_count
    }

    pub fn ast_depth(&self) -> (depth: u32)
        ensures
            depth == self.spec_ast_depth(),
    {
        self.ast_depth
    }

    pub fn ast_fingerprint(&self) -> (digest: [u8; 32])
        ensures
            digest@ == self.spec_ast_fingerprint(),
    {
        self.ast_fingerprint
    }

    pub fn canonical_source(&self) -> (text: &str)
        ensures
            text@ == self.spec_canonical_source(),
    {
        self.canonical_source.as_str()
    }

    pub fn canonical_jcs(&self) -> (text: &str)
        ensures
            text@ == self.spec_canonical_jcs(),
    {
        self.receipt_jcs.as_str()
    }

    pub fn fingerprint(&self) -> (digest: [u8; 32])
        ensures
            digest@ == self.spec_fingerprint(),
    {
        self.receipt_fingerprint
    }

    pub(crate) fn root(&self) -> (root: &Row)
        ensures
            root.view() == self.spec_ast(),
    {
        &self.ast.root
    }

    /// This receipt with its node count replaced by `ast_node_count` and its
    /// canonical JSON and fingerprint resealed over the new count; every
    /// other field is kept.
    pub fn resealed_with_node_count(self, ast_node_count: u64) -> (r: ParsedMathReceipt)
        ensures
            r.spec_source() == self.spec_source(),
            r.spec_source_sha256() == self.spec_source_sha256(),
            r.spec_ast() == self.spec_ast(),
            r.spec_ast_node_count() == ast_node_count,
            r.spec_ast_depth() == self.spec_ast_depth(),
            r.spec_ast_jcs() == self.spec_ast_jcs(),
            r.spec_ast_fingerprint() == self.spec_ast_fingerprint(),
            r.spec_canonical_source() == self.spec_canonical_source(),
            r.spec_canonical_jcs() == parsed_receipt_jcs(
                self.spec_source_sha256(),
                self.spec_ast_fingerprint(),
                ast_node_count as nat,
                self.spec_ast_depth() as nat,
                self.spec_canonical_source(),
            ),
            r.spec_fingerprint() == text_fingerprint(r.spec_canonical_jcs()),
    {
        let receipt_jcs = encode_parsed_receipt(
            &self.source_sha256,
            &self.ast_fingerprint,
            ast_node_count,
            self.ast_depth,
            &self.canonical_source,
        );
        let receipt_fingerprint = fingerprint_text(&receipt_jcs);
        ParsedMathReceipt { ast_node_count, receipt_jcs, receipt_fingerprint, ..self }
    }

    /// Recompute the accounting, the canonical JSON, the canonical source and
    /// every fingerprint; refuse (as a receipt mismatch at offset 0) unless
    /// all agree with the stored fields.
    pub fn verify(&self) -> (r: Result<(), MathSourceError>)
        ensures
            r is Ok <==> self.consistent(),
            r matches Err(e) ==> e == error_at(MathSourceErrorKind::ReceiptMismatch, 0),
    {
        let mismatch = MathSourceError::new(MathSourceErrorKind::ReceiptMismatch, 0);
        let (ast_node_count, ast_depth) = match measure_ast(&self.ast.root) {
            None => return Err(mismatch),
            Some(measured) => measured,
        };
        let ast_jcs = encode_ast(&self.ast.root);
        let canonical_chars = format_row(&self.ast.root);
        let canonical_source = string_from_chars(&canonical_chars);
        let source_sha256 = sha256(self.source.as_str().as_bytes());
        let ast_fingerprint = fingerprint_text(&ast_jcs);
        let receipt_jcs = encode_parsed_receipt(
            &source_sha256,
            &ast_fingerprint,
            ast_node_count,
            ast_depth,
            &canonical_source,
        );
        let receipt_fingerprint = fingerprint_text(&receipt_jcs);
        if !fingerprint_eq(&source_sha256, &self.source_sha256) || ast_node_count
            != self.ast_node_count || ast_depth != self.ast_depth || ast_jcs != self.ast_jcs
            || !fingerprint_eq(&ast_fingerprint, &self.ast_fingerprint) || canonical_source
            != self.canonical_source || receipt_jcs != self.receipt_jcs || !fingerprint_eq(
            &receipt_fingerprint,
            &self.receipt_fingerprint,
        ) {
            return Err(mismatch);
        }
        Ok(())
    }
}

pub(crate) fn encode_parsed_receipt(
    source_sha256: &[u8; 32],
    ast_fingerprint: &[u8; 32],
    ast_node_count: u64,
    ast_depth: u32,
    canonical_source: &String,
) -> (jcs: String)
    ensures
        jcs@ == parsed_receipt_jcs(
            source_sha256@,
            ast_fingerprint@,
            ast_node_count as nat,
            ast_depth as nat,
            canonical_source@,
        ),
{
    let mut output = String::new();
    output.append("{\"algorithm\":\"typaxis.math-parsed-source-receipt/1\",\"ast_depth\":");
    push_u64(&mut output, ast_depth as u64);
    output.append(",\"ast_fingerprint\":");
    push_hash(&mut output, ast_fingerprint);
    output.append(",\"ast_fingerprint_algorithm\":");
    push_json_str(&mut output, MATH_AST_FINGERPRINT_ID);
    output.append(",\"ast_node_count\":");
    push_u64(&mut output, ast_node_count);
    output.append(",\"canonical_source\":");
    push_json_str(&mut output, canonical_source.as_str());
    output.append(",\"formatter\":");
    push_json_str(&mut output, MATH_FORMATTER_ID);
    output.append(",\"parser\":");
    push_json_str(&mut output, MATH_PARSER_ID);
    output.append(",\"source_identity\":");
    push_json_str(&mut output, MATH_SOURCE_ID);
    output.append(",\"source_sha256\":");
    push_hash(&mut output, source_sha256);
    output.append("}");
    assert(output@ =~= parsed_receipt_jcs(
        source_sha256@,
        ast_fingerprint@,
        ast_node_count as nat,
        ast_depth as nat,
        canonical_source@,
    ));
    output
}

/// Admission and the counting pass: the exact node and depth charge, or the
/// first refusal, before anything is allocated for the AST.
pub(crate) fn preflight_math_source(chars: &[char], limits: MathParseLimits) -> (r: Result<
    (u64, u32),
    MathSourceError,
>)
    requires
        refused_at(chars@) is None,
    ensures
        match parse_source(chars@, limits) {
            Err(f) => r == Err::<(u64, u32), MathSourceError>(source_error(chars@, f)),
            Ok((_, st)) => r matches Ok((count, depth)) && count == st.count && depth == st.depth,
        },
{
    let mut pass = MathSourcePreflight {
        chars,
        offset: 0,
        limits,
        node_count: 0,
        maximum_depth: 0,
    };
    match pass.parse_row(None, 1) {
        Err(f) => return Err(to_source_error(chars, f)),
        Ok(()) => {},
    }
    pass.skip_space();
    if pass.offset != chars.len() {
        let f = crate::math_parse::Failure { kind: MathSourceErrorKind::UnexpectedToken, pos: pass.offset };
        return Err(to_source_error(chars, f));
    }
    Ok((pass.node_count, pass.maximum_depth))
}

/// Admission and the typed parse of one source.
fn parse_checked(chars: &[char], limits: MathParseLimits) -> (r: Result<
    (MathAst, u64, u32),
    MathSourceError,
>)
    ensures
        match checked_parse(chars@, limits) {
            Err(e) => r == Err::<(MathAst, u64, u32), MathSourceError>(e),
            Ok((root, st)) => r matches Ok((ast, count, depth)) && ast.root.view() == root
                && count == st.count && depth == st.depth,
        },
{
    match validate_source_chars(chars) {
        Err(f) => return Err(to_source_error(chars, f)),
        Ok(()) => {},
    }
    let mut parser = Parser { chars, offset: 0, limits, node_count: 0, maximum_depth: 0 };
    let root = match parser.parse_row(None, 1) {
        Err(f) => return Err(to_source_error(chars, f)),
        Ok(root) => root,
    };
    parser.skip_space();
    if parser.offset != chars.len() {
        let f = crate::math_parse::Failure { kind: MathSourceErrorKind::UnexpectedToken, pos: parser.offset };
        return Err(to_source_error(chars, f));
    }
    Ok((MathAst { root }, parser.node_count, parser.maximum_depth))
}

/// Parse the canonical source again, as the round-trip check does.
fn parse_unchecked_for_round_trip(chars: &[char], limits: MathParseLimits) -> (r: Result<
    MathAst,
    MathSourceError,
>)
    ensures
        match checked_parse(chars@, limits) {
            Err(e) => r == Err::<MathAst, MathSourceError>(e),
            Ok((root, _)) => r matches Ok(ast) && ast.root.view() == root,
        },
{
    match parse_checked(chars, limits) {
        Err(e) => Err(e),
        Ok((ast, _, _)) => Ok(ast),
    }
}

/// A parse that succeeds has a canonical source that parses again under the
/// same limits to an AST with the same canonical JSON.
pub proof fn lemma_canonical_source_reparses(s: Seq<char>, limits: MathParseLimits)
    requires
        parse_outcome(s, limits) is Ok,
    ensures
        ({
            let root = parse_outcome(s, limits)->Ok_0.0;
            checked_parse(canonical_row(root), limits) matches Ok((again, _)) && encoded_ast(again)
                == encoded_ast(root)
        }),
{
}

/// A receipt whose stored node count is not the AST's does not verify, even
/// when its canonical JSON and fingerprint are resealed over that count.
pub proof fn lemma_wrong_node_count_refused(receipt: ParsedMathReceipt)
    requires
        receipt.spec_ast_node_count() != row_nodes(receipt.spec_ast()),
    ensures
        !receipt.consistent(),
{
}

/// Parse a math source under inclusive node and depth limits into a sealed
/// receipt; the canonical source must parse back to the same AST.
pub fn parse_math_source(source: &str, limits: MathParseLimits) -> (r: Result<
    ParsedMathReceipt,
    MathSourceError,
>)
    ensures
        match parse_outcome(source@, limits) {
            Err(e) => r == Err::<ParsedMathReceipt, MathSourceError>(e),
            Ok((root, st)) => r matches Ok(receipt) && receipt.issued_for(source@, root, st),
        },
{
    let chars = str_chars(source);
    match validate_source_chars(chars.as_slice()) {
        Err(f) => return Err(to_source_error(chars.as_slice(), f)),
        Ok(()) => {},
    }
    let preflight = match preflight_math_source(chars.as_slice(), limits) {
        Err(e) => return Err(e),
        Ok(counts) => counts,
    };
    let (ast, node_count, maximum_depth) = match parse_checked(chars.as_slice(), limits) {
        Err(e) => return Err(e),
        Ok(parsed) => parsed,
    };
    if node_count != preflight.0 || maximum_depth != preflight.1 {
        return Err(MathSourceError::new(MathSourceErrorKind::ReceiptMismatch, 0));
    }
    let ast_jcs = encode_ast(&ast.root);
    let ast_fingerprint = fingerprint_text(&ast_jcs);
    let canonical_chars = format_row(&ast.root);
    let canonical_source = string_from_chars(&canonical_chars);
    let reparsed = match parse_unchecked_for_round_trip(canonical_chars.as_slice(), limits) {
        Err(e) => return Err(e),
        Ok(reparsed) => reparsed,
    };
    if encode_ast(&reparsed.root) != ast_jcs {
        return Err(MathSourceError::new(MathSourceErrorKind::ReceiptMismatch, 0));
    }
    let source_sha256 = sha256(source.as_bytes());
    let receipt_jcs = encode_parsed_receipt(
        &source_sha256,
        &ast_fingerprint,
        node_count,
        maximum_depth,
        &canonical_source,
    );
    let receipt_fingerprint = fingerprint_text(&receipt_jcs);
    Ok(ParsedMathReceipt {
        source: source.to_owned(),
        source_sha256,
        ast,
        ast_node_count: node_count,
        ast_depth: maximum_depth,
        ast_jcs,
        ast_fingerprint,
        canonical_source,
        receipt_jcs,
        receipt_fingerprint,
    })
}

} // verus!
