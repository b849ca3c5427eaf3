//! Whole-stream facts about the scanner.
//!
//! `token_stream` lists, at the specification level, every token a scanner
//! yields from a given cursor onwards, each as a kind together with its
//! `[begin, end)` byte-offset span.  The lemmas here state the stream-wide
//! guarantees: the spans tile the source exactly, the stream ends in a
//! single `EndOfFile` token, and the stream is a function of the source
//! text alone.  `tokenize` is the verified driver loop producing that
//! stream at run time.

use vstd::prelude::*;

use crate::tokenizer::Token;
use crate::tokenizer::TokenKind;
use crate::tokenizer::Tokenizer;
use crate::tokenizer::bytes_upto;
use crate::tokenizer::lemma_bytes_upto_mono;
use crate::tokenizer::lemma_scan_token_bounds;
use crate::tokenizer::scan_token;

verus! {

/// One record of the stream: a kind and its byte-offset span.
pub type TokenRecord = (TokenKind, int, int);

/// Every token scanned from character index `i` to the end of the source,
/// each with its byte-offset span; the `EndOfFile` token that ends the
/// stream is included as its last record.
pub open spec fn token_stream(s: Seq<char>, i: int) -> Seq<TokenRecord>
    decreases s.len() - i,
    when 0 <= i <= s.len()
    via token_stream_decreases
{
    if i >= s.len() {
        seq![(TokenKind::EndOfFile, bytes_upto(s, s.len() as int), bytes_upto(s, s.len() as int))]
    } else {
        let r = scan_token(s, i);
        seq![(r.0, bytes_upto(s, i), bytes_upto(s, r.1))] + token_stream(s, r.1)
    }
}

#[via_fn]
proof fn token_stream_decreases(s: Seq<char>, i: int) {
    lemma_scan_token_bounds(s, i);
}

/// Concatenating the spans of the tokens of a source reconstructs it
/// exactly: the first span begins at the cursor's byte offset, each later
/// span begins where the one before it ends, no span runs backwards, and
/// the stream closes with exactly one `EndOfFile` token whose empty span
/// sits at the total byte length of the source.
pub proof fn lemma_token_spans_partition(s: Seq<char>, i: int)
    requires
        0 <= i <= s.len(),
    ensures
        ({
            let ts = token_stream(s, i);
            &&& ts.len() >= 1
            &&& ts[ts.len() - 1] == (
                TokenKind::EndOfFile,
                bytes_upto(s, s.len() as int),
                bytes_upto(s, s.len() as int),
            )
            &&& ts[0].1 == bytes_upto(s, i)
            &&& forall|k: int| 0 <= k < ts.len() - 1 ==> (#[trigger] ts[k]).2 == ts[k + 1].1
            &&& forall|k: int| 0 <= k < ts.len() ==> (#[trigger] ts[k]).1 <= ts[k].2
            &&& forall|k: int|
                0 <= k < ts.len() - 1 ==> (#[trigger] ts[k]).0 != TokenKind::EndOfFile
        }),
    decreases s.len() - i,
{
    lemma_scan_token_bounds(s, i);
    let ts = token_stream(s, i);
    if i >= s.len() {
    } else {
        let r = scan_token(s, i);
        lemma_bytes_upto_mono(s, i, r.1);
        lemma_token_spans_partition(s, r.1);
        let rest = token_stream(s, r.1);
        assert(ts[0] == (r.0, bytes_upto(s, i), bytes_upto(s, r.1)));
        assert(forall|k: int| 0 <= k < rest.len() ==> ts[k + 1] == rest[k]);
        assert forall|k: int| 0 <= k < ts.len() - 1 implies (#[trigger] ts[k]).2 == ts[k + 1].1 by {
            if k == 0 {
                assert(rest[0].1 == bytes_upto(s, r.1));
            } else {
                assert(rest[k - 1].2 == rest[k].1);
            }
        }
    }
}

/// The token stream is a function of the source text and the starting
/// cursor alone: two scans of equal sources from equal positions yield
/// identical streams.  Together with the contract of `next_token`, whose
/// result is pinned to `scan_token` over the scanner's source and cursor,
/// this says that re-scanning a source from a fresh scanner always repeats
/// the same token sequence.
pub proof fn lemma_rescan_identical(s1: Seq<char>, i1: int, s2: Seq<char>, i2: int)
    requires
        s1 == s2,
        i1 == i2,
    ensures
        token_stream(s1, i1) == token_stream(s2, i2),
{
}

/// Scans all of `source` from the start and returns the full token
/// sequence, ending with its `EndOfFile` token: the run-time image of
/// `token_stream` over the source's characters.
pub fn tokenize(source: &str) -> (tokens: Vec<Token>)
    ensures
        ({
            let ts = token_stream(source@, 0);
            &&& tokens@.len() == ts.len()
            &&& forall|k: int|
                0 <= k < ts.len() ==> ((#[trigger] tokens@[k]).kind, tokens@[k].begin as int,
                    tokens@[k].end as int) == ts[k]
        }),
{
    let mut scanner = Tokenizer::new(source);
    let mut tokens: Vec<Token> = Vec::new();
    proof {
        assert(token_stream(source@, 0).skip(0) =~= token_stream(source@, 0));
    }
    while !scanner.is_eof()
        invariant
            scanner.wf(),
            scanner.src() == source@,
            0 <= scanner.cursor() <= source@.len(),
            tokens@.len() + token_stream(source@, scanner.cursor()).len() == token_stream(
                source@,
                0,
            ).len(),
            forall|k: int|
                0 <= k < tokens@.len() ==> ((#[trigger] tokens@[k]).kind, tokens@[k].begin as int,
                    tokens@[k].end as int) == token_stream(source@, 0)[k],
            token_stream(source@, scanner.cursor()) == token_stream(source@, 0).skip(
                tokens@.len() as int,
            ),
        decreases source@.len() - scanner.cursor(),
    {
        let ghost cur = scanner.cursor();
        let ghost n = tokens@.len() as int;
        let t = scanner.next_token();
        proof {
            lemma_scan_token_bounds(source@, cur);
            lemma_stream_skip_step(source@, cur, n);
        }
        tokens.push(t);
    }
    let t = scanner.next_token();
    proof {
        lemma_stream_skip_step(source@, scanner.cursor(), tokens@.len() as int);
    }
    tokens.push(t);
    tokens
}

/// Unfolding helper: the stream at the cursor is the suffix of the whole
/// stream that starts after `n` already-collected tokens, so taking one
/// more token extends the collected prefix by exactly that token.
proof fn lemma_stream_skip_step(s: Seq<char>, i: int, n: int)
    requires
        0 <= i <= s.len(),
        0 <= n <= token_stream(s, 0).len(),
        token_stream(s, i) == token_stream(s, 0).skip(n),
    ensures
        n < token_stream(s, 0).len(),
        token_stream(s, 0)[n] == token_stream(s, i)[0],
        i < s.len() ==> token_stream(s, scan_token(s, i).1) == token_stream(s, 0).skip(n + 1),
        i < s.len() ==> token_stream(s, 0)[n] == (
            scan_token(s, i).0,
            bytes_upto(s, i),
            bytes_upto(s, scan_token(s, i).1),
        ),
        i >= s.len() ==> token_stream(s, 0)[n] == (
            TokenKind::EndOfFile,
            bytes_upto(s, s.len() as int),
            bytes_upto(s, s.len() as int),
        ),
        i >= s.len() ==> token_stream(s, 0).len() == n + 1,
{
    lemma_scan_token_bounds(s, i);
    let whole = token_stream(s, 0);
    let here = token_stream(s, i);
    assert(here.len() >= 1);
    assert(whole.skip(n).len() == whole.len() - n);
    assert(n < whole.len());
    assert(whole.skip(n)[0] == whole[n]);
    if i < s.len() {
        let r = scan_token(s, i);
        let rest = token_stream(s, r.1);
        assert(here == seq![(r.0, bytes_upto(s, i), bytes_upto(s, r.1))] + rest);
        assert(rest =~= here.skip(1));
        assert(whole.skip(n).skip(1) =~= whole.skip(n + 1));
    } else {
        assert(here.len() == 1);
    }
}

} // verus!
