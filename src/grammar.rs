//! The reply grammar as spec functions over the characters of a line.
use vstd::prelude::*;

verus! {

/// A space or a tab.
pub open spec fn space_char(c: char) -> bool {
    c == ' ' || c == '\t'
}

/// The line terminator.
pub open spec fn next_line_char(c: char) -> bool {
    c == '\n'
}

/// What separates two pairs, and ends an unquoted value.
pub open spec fn separator_char(c: char) -> bool {
    space_char(c) || next_line_char(c)
}

/// The delimiter of a quoted value.
pub open spec fn quote_char(c: char) -> bool {
    c == '"'
}

/// A character of a key: an ASCII letter or digit.
pub open spec fn key_char(c: char) -> bool {
    ('a' <= c && c <= 'z') || ('A' <= c && c <= 'Z') || ('0' <= c && c <= '9')
}

/// The characters that may stand in a key.
pub open spec fn key_class() -> spec_fn(char) -> bool {
    |c: char| key_char(c)
}

/// The characters that may stand inside a quoted value.
pub open spec fn quoted_class() -> spec_fn(char) -> bool {
    |c: char| !quote_char(c)
}

/// The characters that may stand in an unquoted value.
pub open spec fn token_class() -> spec_fn(char) -> bool {
    |c: char| !separator_char(c)
}

/// The characters that separate two pairs.
pub open spec fn separator_class() -> spec_fn(char) -> bool {
    |c: char| separator_char(c)
}

/// The end of the longest run of characters of `class` in `s` that starts at `i`.
pub open spec fn scan_while(s: Seq<char>, i: int, class: spec_fn(char) -> bool) -> int
    decreases s.len() - i,
{
    if 0 <= i < s.len() && class(s[i]) {
        scan_while(s, i + 1, class)
    } else {
        i
    }
}

/// Why a line does not follow the grammar of its verb.
#[derive(Clone, Copy, Debug, PartialEq, Eq, Structural)]
pub enum ReplyErrorKind {
    /// The line does not begin with the verb phrase.
    Tag,
    /// A key is not followed by `=`.
    MalformedPair,
    /// A quoted value has no closing quote.
    UnterminatedQuote,
    /// The verb phrase is followed by no pair.
    EmptyPairList,
    /// The pairs are not followed by a newline.
    MissingNewline,
}

/// A failed parse: why, and at which character of the line.
#[derive(Clone, Copy, Debug, PartialEq, Eq, Structural)]
pub struct ReplyError {
    pub kind: ReplyErrorKind,
    pub position: usize,
}

/// Key/value pairs, in the order of the line.
pub type PairSeq = Seq<(Seq<char>, Seq<char>)>;

/// What a pair that starts at `i` holds: its key, its value and the position
/// after it; or the failure and its position.
pub open spec fn spec_pair(s: Seq<char>, i: int) -> Result<
    (Seq<char>, Seq<char>, int),
    (ReplyErrorKind, int),
> {
    let k = scan_while(s, i, key_class());
    if k == i || k >= s.len() || s[k] != '=' {
        Err((ReplyErrorKind::MalformedPair, k))
    } else if k + 1 < s.len() && quote_char(s[k + 1]) {
        let q = scan_while(s, k + 2, quoted_class());
        if q >= s.len() {
            Err((ReplyErrorKind::UnterminatedQuote, k + 1))
        } else {
            Ok((s.subrange(i, k), s.subrange(k + 2, q), q + 1))
        }
    } else {
        let e = scan_while(s, k + 1, token_class());
        Ok((s.subrange(i, k), s.subrange(k + 1, e), e))
    }
}

/// The pairs that follow a pair which ends at `i`, each after a run of
/// separators, and the position after the last. The list ends before a run of
/// separators that no pair follows; an unterminated quote fails it.
pub open spec fn spec_more_pairs(s: Seq<char>, i: int) -> Result<(PairSeq, int), (ReplyErrorKind, int)>
    decreases s.len() - i,
{
    let j = scan_while(s, i, separator_class());
    if j == i || !(0 <= i <= s.len()) {
        Ok((Seq::empty(), i))
    } else {
        match spec_pair(s, j) {
            Ok((k, v, n)) => {
                proof {
                    lemma_pair_advances(s, j);
                    lemma_scan_bounds(s, i, separator_class());
                }
                match spec_more_pairs(s, n) {
                    Ok((rest, e)) => Ok((seq![(k, v)] + rest, e)),
                    Err(x) => Err(x),
                }
            },
            Err((kind, p)) => if kind == ReplyErrorKind::UnterminatedQuote {
                Err((kind, p))
            } else {
                Ok((Seq::empty(), i))
            },
        }
    }
}

/// The pairs of a list whose first pairs are `first`, followed by what the
/// rest of the list gives.
pub open spec fn prepend_pairs(first: PairSeq, rest: Result<(PairSeq, int), (ReplyErrorKind, int)>) -> Result<
    (PairSeq, int),
    ReplyError,
> {
    match rest {
        Ok((more, e)) => Ok((first + more, e)),
        Err((kind, p)) => Err(ReplyError { kind, position: p as usize }),
    }
}

/// The list of one or more pairs that starts at `b`, and the position after it.
pub open spec fn spec_pairs(s: Seq<char>, b: int) -> Result<(PairSeq, int), ReplyError> {
    if scan_while(s, b, key_class()) == b {
        Err(ReplyError { kind: ReplyErrorKind::EmptyPairList, position: b as usize })
    } else {
        match spec_pair(s, b) {
            Err((kind, p)) => Err(ReplyError { kind, position: p as usize }),
            Ok((k, v, n)) => prepend_pairs(seq![(k, v)], spec_more_pairs(s, n)),
        }
    }
}

/// Whether `s` begins with `verb`.
pub open spec fn starts_with(s: Seq<char>, verb: Seq<char>) -> bool {
    verb.len() <= s.len() && s.subrange(0, verb.len() as int) == verb
}

/// A reply line: the verb phrase, one or more pairs, and a newline. On success,
/// what follows the newline and the pairs in the order of the line.
pub open spec fn spec_reply(verb: Seq<char>, s: Seq<char>) -> Result<(Seq<char>, PairSeq), ReplyError> {
    if !starts_with(s, verb) {
        Err(ReplyError { kind: ReplyErrorKind::Tag, position: 0 })
    } else {
        match spec_pairs(s, verb.len() as int) {
            Err(e) => Err(e),
            Ok((ps, e)) => if e < s.len() && next_line_char(s[e]) {
                Ok((s.subrange(e + 1, s.len() as int), ps))
            } else {
                Err(ReplyError { kind: ReplyErrorKind::MissingNewline, position: e as usize })
            },
        }
    }
}

/// A run never ends before it starts, nor past the end of `s` unless it starts there.
pub proof fn lemma_scan_bounds(s: Seq<char>, i: int, class: spec_fn(char) -> bool)
    ensures
        i <= scan_while(s, i, class),
        0 <= i <= s.len() ==> scan_while(s, i, class) <= s.len(),
        i < scan_while(s, i, class) ==> 0 <= i < s.len() && class(s[i]),
    decreases s.len() - i,
{
    if 0 <= i < s.len() && class(s[i]) {
        lemma_scan_bounds(s, i + 1, class);
    }
}

/// A pair that parses ends after its start, and within the line.
pub proof fn lemma_pair_advances(s: Seq<char>, i: int)
    requires
        0 <= i <= s.len(),
    ensures
        spec_pair(s, i) is Ok ==> i < spec_pair(s, i)->Ok_0.2 <= s.len(),
        spec_pair(s, i) is Err ==> i <= spec_pair(s, i)->Err_0.1 <= s.len(),
{
    let k = scan_while(s, i, key_class());
    lemma_scan_bounds(s, i, key_class());
    if k < s.len() {
        lemma_scan_bounds(s, k + 2, quoted_class());
        lemma_scan_bounds(s, k + 1, token_class());
    }
}

} // verus!
