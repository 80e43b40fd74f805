//! Executable parsers, each proved to follow the grammar of `grammar`.
use vstd::prelude::*;
use crate::grammar::{
    key_char, key_class, lemma_pair_advances, next_line_char, prepend_pairs, quote_char,
    quoted_class, scan_while, separator_char, separator_class, space_char, spec_more_pairs,
    spec_pair, spec_pairs, spec_reply, token_class, PairSeq, ReplyError, ReplyErrorKind,
};

verus! {

/// Whether `chr` is a space or a tab.
pub fn is_space(chr: char) -> (r: bool)
    ensures
        r == space_char(chr),
{
    chr == ' ' || chr == '\t'
}

/// Whether `chr` is a newline.
pub fn is_next_line(chr: char) -> (r: bool)
    ensures
        r == next_line_char(chr),
{
    chr == '\n'
}

/// Whether `chr` is a space, a tab or a newline.
pub fn is_space_or_next_line(chr: char) -> (r: bool)
    ensures
        r == separator_char(chr),
{
    is_space(chr) || is_next_line(chr)
}

/// Whether `chr` is a double quote.
pub fn is_double_quote(chr: char) -> (r: bool)
    ensures
        r == quote_char(chr),
{
    chr == '"'
}

/// Whether `chr` may stand in a key.
pub fn is_key_char(chr: char) -> (r: bool)
    ensures
        r == key_char(chr),
{
    ('a' <= chr && chr <= 'z') || ('A' <= chr && chr <= 'Z') || ('0' <= chr && chr <= '9')
}

/// The characters of `s`, in order.
fn chars_of(s: &str) -> (r: Vec<char>)
    ensures
        r@ == s@,
{
    let mut r: Vec<char> = Vec::new();
    for c in it: s.chars()
        invariant
            r@ == it.seq().subrange(0, it.index() as int),
            it.seq() == s@,
    {
        r.push(c);
    }
    r
}

/// The runs of characters that the grammar scans.
#[derive(Clone, Copy)]
enum Run {
    Key,
    Quoted,
    Token,
    Separators,
}

impl Run {
    spec fn class(self) -> spec_fn(char) -> bool {
        match self {
            Run::Key => key_class(),
            Run::Quoted => quoted_class(),
            Run::Token => token_class(),
            Run::Separators => separator_class(),
        }
    }

    fn contains(self, c: char) -> (r: bool)
        ensures
            r == (self.class())(c),
    {
        match self {
            Run::Key => is_key_char(c),
            Run::Quoted => !is_double_quote(c),
            Run::Token => !is_space_or_next_line(c),
            Run::Separators => is_space_or_next_line(c),
        }
    }
}

/// The end of the run of `run` characters that starts at `i`.
fn scan(chars: &Vec<char>, i: usize, run: Run) -> (r: usize)
    requires
        i <= chars@.len(),
    ensures
        r == scan_while(chars@, i as int, run.class()),
        i <= r <= chars@.len(),
{
    let mut j: usize = i;
    while j < chars.len() && run.contains(chars[j])
        invariant
            i <= j <= chars@.len(),
            scan_while(chars@, i as int, run.class()) == scan_while(chars@, j as int, run.class()),
        decreases chars@.len() - j,
    {
        j = j + 1;
    }
    j
}

/// A quoted value whose opening quote stands at `i`: the end of its content,
/// where the closing quote stands, or `None` where no quote closes it.
fn quoted_value(chars: &Vec<char>, i: usize) -> (r: Option<usize>)
    requires
        i < chars.len(),
    ensures
        r == (if scan_while(chars@, i + 1, quoted_class()) < chars@.len() {
            Some(scan_while(chars@, i + 1, quoted_class()) as usize)
        } else {
            None::<usize>
        }),
        r matches Some(q) ==> i + 1 <= q < chars@.len(),
{
    let q = scan(chars, i + 1, Run::Quoted);
    if q < chars.len() {
        Some(q)
    } else {
        None
    }
}

/// An unquoted value that starts at `i`: where it ends.
fn value(chars: &Vec<char>, i: usize) -> (r: usize)
    requires
        i <= chars@.len(),
    ensures
        r == scan_while(chars@, i as int, token_class()),
        i <= r <= chars@.len(),
{
    scan(chars, i, Run::Token)
}

/// A pair found at `i`: where its key and its value stand, and where it ends.
struct Spans {
    key_start: usize,
    key_end: usize,
    value_start: usize,
    value_end: usize,
    next: usize,
}

/// What a parsed pair stands for in the grammar.
spec fn spans_view(s: Seq<char>, p: Spans) -> (Seq<char>, Seq<char>, int) {
    (s.subrange(p.key_start as int, p.key_end as int), s.subrange(
        p.value_start as int,
        p.value_end as int,
    ), p.next as int)
}

/// The pair that starts at `i`: its spans, or the failure and its position.
fn key_value(chars: &Vec<char>, i: usize) -> (r: Result<Spans, (ReplyErrorKind, usize)>)
    requires
        i <= chars@.len(),
    ensures
        match r {
            Ok(p) => {
                &&& spec_pair(chars@, i as int) == Ok::<_, (ReplyErrorKind, int)>(spans_view(chars@, p))
                &&& p.key_start <= p.key_end <= chars@.len()
                &&& p.value_start <= p.value_end <= chars@.len()
                &&& i < p.next <= chars@.len()
            },
            Err((kind, pos)) => spec_pair(chars@, i as int) == Err::<(Seq<char>, Seq<char>, int), _>(
                (kind, pos as int),
            ),
        },
{
    proof {
        lemma_pair_advances(chars@, i as int);
    }
    let k = scan(chars, i, Run::Key);
    if k == i || k >= chars.len() || chars[k] != '=' {
        return Err((ReplyErrorKind::MalformedPair, k));
    }
    if k + 1 < chars.len() && is_double_quote(chars[k + 1]) {
        match quoted_value(chars, k + 1) {
            Some(q) => Ok(Spans { key_start: i, key_end: k, value_start: k + 2, value_end: q, next: q + 1 }),
            None => Err((ReplyErrorKind::UnterminatedQuote, k + 1)),
        }
    } else {
        let e = value(chars, k + 1);
        Ok(Spans { key_start: i, key_end: k, value_start: k + 1, value_end: e, next: e })
    }
}

/// The pairs of a parse, as the grammar sees them.
pub open spec fn pairs_view(v: Seq<(&str, &str)>) -> PairSeq {
    v.map_values(|p: (&str, &str)| (p.0@, p.1@))
}

/// A parse result, as the grammar sees it.
pub open spec fn reply_view(r: Result<(&str, Vec<(&str, &str)>), ReplyError>) -> Result<
    (Seq<char>, PairSeq),
    ReplyError,
> {
    match r {
        Ok((rest, pairs)) => Ok((rest@, pairs_view(pairs@))),
        Err(e) => Err(e),
    }
}

/// The list of one or more pairs that starts at `b`: the pairs, borrowed from
/// `input`, and the position after the last.
fn keys_and_values<'a>(input: &'a str, chars: &Vec<char>, b: usize) -> (r: Result<
    (Vec<(&'a str, &'a str)>, usize),
    ReplyError,
>)
    requires
        chars@ == input@,
        b <= chars@.len(),
    ensures
        match r {
            Ok((pairs, e)) => spec_pairs(chars@, b as int) == Ok::<_, ReplyError>(
                (pairs_view(pairs@), e as int),
            ),
            Err(err) => spec_pairs(chars@, b as int) == Err::<(PairSeq, int), _>(err),
        },
{
    let ghost s = chars@;
    let k = scan(chars, b, Run::Key);
    if k == b {
        return Err(ReplyError { kind: ReplyErrorKind::EmptyPairList, position: b });
    }
    let first = match key_value(chars, b) {
        Ok(p) => p,
        Err((kind, position)) => {
            return Err(ReplyError { kind, position });
        },
    };
    let mut pairs: Vec<(&'a str, &'a str)> = Vec::new();
    pairs.push(
        (
            input.substring_char(first.key_start, first.key_end),
            input.substring_char(first.value_start, first.value_end),
        ),
    );
    let mut cur = first.next;
    assert(pairs_view(pairs@) =~= seq![(spans_view(s, first).0, spans_view(s, first).1)]);
    loop
        invariant
            chars@ == input@,
            s == chars@,
            b < cur <= chars@.len(),
            spec_pairs(s, b as int) == prepend_pairs(pairs_view(pairs@), spec_more_pairs(s, cur as int)),
        decreases chars@.len() - cur,
    {
        let j = scan(chars, cur, Run::Separators);
        if j == cur {
            assert(pairs_view(pairs@) + Seq::empty() =~= pairs_view(pairs@));
            return Ok((pairs, cur));
        }
        match key_value(chars, j) {
            Ok(p) => {
                let ghost before = pairs_view(pairs@);
                let ghost kv = (spans_view(s, p).0, spans_view(s, p).1);
                pairs.push(
                    (
                        input.substring_char(p.key_start, p.key_end),
                        input.substring_char(p.value_start, p.value_end),
                    ),
                );
                assert(pairs_view(pairs@) =~= before.push(kv));
                proof {
                    match spec_more_pairs(s, p.next as int) {
                        Ok((rest, e)) => {
                            assert(before + (seq![kv] + rest) =~= before.push(kv) + rest);
                        },
                        Err(_) => {},
                    }
                }
                cur = p.next;
            },
            Err((kind, position)) => {
                if kind == ReplyErrorKind::UnterminatedQuote {
                    return Err(ReplyError { kind, position });
                }
                assert(pairs_view(pairs@) + Seq::empty() =~= pairs_view(pairs@));
                return Ok((pairs, cur));
            },
        }
    }
}

/// A line that begins with `verb`, then holds one or more pairs and a newline.
fn reply_line<'a>(input: &'a str, verb: &str) -> (r: Result<(&'a str, Vec<(&'a str, &'a str)>), ReplyError>)
    ensures
        reply_view(r) == spec_reply(verb@, input@),
{
    let chars = chars_of(input);
    let phrase = chars_of(verb);
    if phrase.len() > chars.len() {
        return Err(ReplyError { kind: ReplyErrorKind::Tag, position: 0 });
    }
    let mut m: usize = 0;
    while m < phrase.len()
        invariant
            m <= phrase@.len() <= chars@.len(),
            chars@ == input@,
            phrase@ == verb@,
            forall|t: int| 0 <= t < m ==> chars@[t] == phrase@[t],
        decreases phrase@.len() - m,
    {
        if chars[m] != phrase[m] {
            assert(chars@.subrange(0, phrase@.len() as int)[m as int] != phrase@[m as int]);
            return Err(ReplyError { kind: ReplyErrorKind::Tag, position: 0 });
        }
        m = m + 1;
    }
    assert(chars@.subrange(0, phrase@.len() as int) =~= phrase@);
    match keys_and_values(input, &chars, phrase.len()) {
        Err(e) => Err(e),
        Ok((pairs, e)) => {
            if e < chars.len() && is_next_line(chars[e]) {
                Ok((input.substring_char(e + 1, chars.len()), pairs))
            } else {
                Err(ReplyError { kind: ReplyErrorKind::MissingNewline, position: e })
            }
        },
    }
}

/// A `HELLO REPLY` line. On success, what follows its newline and its pairs, in order.
pub fn sam_hello(input: &str) -> (r: Result<(&str, Vec<(&str, &str)>), ReplyError>)
    ensures
        reply_view(r) == spec_reply("HELLO REPLY "@, input@),
{
    reply_line(input, "HELLO REPLY ")
}

/// A `SESSION STATUS` line. On success, what follows its newline and its pairs, in order.
pub fn sam_session_status(input: &str) -> (r: Result<(&str, Vec<(&str, &str)>), ReplyError>)
    ensures
        reply_view(r) == spec_reply("SESSION STATUS "@, input@),
{
    reply_line(input, "SESSION STATUS ")
}

/// A `STREAM STATUS` line. On success, what follows its newline and its pairs, in order.
pub fn sam_stream_status(input: &str) -> (r: Result<(&str, Vec<(&str, &str)>), ReplyError>)
    ensures
        reply_view(r) == spec_reply("STREAM STATUS "@, input@),
{
    reply_line(input, "STREAM STATUS ")
}

/// A `NAMING REPLY` line. On success, what follows its newline and its pairs, in order.
pub fn sam_naming_reply(input: &str) -> (r: Result<(&str, Vec<(&str, &str)>), ReplyError>)
    ensures
        reply_view(r) == spec_reply("NAMING REPLY "@, input@),
{
    reply_line(input, "NAMING REPLY ")
}

/// A `DEST REPLY` line. On success, what follows its newline and its pairs, in order.
pub fn sam_dest_reply(input: &str) -> (r: Result<(&str, Vec<(&str, &str)>), ReplyError>)
    ensures
        reply_view(r) == spec_reply("DEST REPLY "@, input@),
{
    reply_line(input, "DEST REPLY ")
}

} // verus!
