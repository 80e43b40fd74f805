//! What holds of every reply line: lines written from pairs read back as
//! those pairs, and the malformed lines that are rejected.
use vstd::prelude::*;
use crate::grammar::{
    key_char, key_class, lemma_pair_advances, lemma_scan_bounds, quote_char, quoted_class, scan_while, separator_char,
    separator_class, space_char, spec_more_pairs, spec_pair, spec_pairs, spec_reply, starts_with, token_class,
    PairSeq, ReplyError, ReplyErrorKind,
};

verus! {

/// A key that the grammar reads: one or more ASCII letters or digits.
pub open spec fn valid_key(k: Seq<char>) -> bool {
    k.len() > 0 && forall|m: int| 0 <= m < k.len() ==> key_char(#[trigger] k[m])
}

/// A value that can be written without quotes: it holds no separator and does
/// not open with a quote.
pub open spec fn plain_value(v: Seq<char>) -> bool {
    (forall|m: int| 0 <= m < v.len() ==> !separator_char(#[trigger] v[m])) && !(v.len() > 0
        && quote_char(v[0]))
}

/// A value that can be written: plainly, or between quotes when it holds none.
pub open spec fn writable_value(v: Seq<char>) -> bool {
    plain_value(v) || forall|m: int| 0 <= m < v.len() ==> !quote_char(#[trigger] v[m])
}

/// A value as written in a line: as it is, or between quotes where it cannot
/// stand plainly.
pub open spec fn render_value(v: Seq<char>) -> Seq<char> {
    if plain_value(v) {
        v
    } else {
        seq!['"'] + v + seq!['"']
    }
}

/// A pair as written in a line: `key=value`.
pub open spec fn render_pair(p: (Seq<char>, Seq<char>)) -> Seq<char> {
    p.0 + seq!['='] + render_value(p.1)
}

/// Pairs as written after the verb phrase: separated by single spaces and
/// closed by a newline.
pub open spec fn render_pairs(ps: PairSeq) -> Seq<char>
    decreases ps.len(),
{
    if ps.len() == 0 {
        Seq::empty()
    } else if ps.len() == 1 {
        render_pair(ps[0]) + seq!['\n']
    } else {
        render_pair(ps[0]) + seq![' '] + render_pairs(ps.drop_first())
    }
}

/// Pairs that can all be written and read back.
pub open spec fn writable_pairs(ps: PairSeq) -> bool {
    forall|m: int| 0 <= m < ps.len() ==> valid_key(#[trigger] ps[m].0) && writable_value(ps[m].1)
}

/// A run that covers exactly `[i, j)` ends at `j`.
proof fn lemma_scan_to(s: Seq<char>, i: int, j: int, class: spec_fn(char) -> bool)
    requires
        0 <= i <= j <= s.len(),
        forall|m: int| i <= m < j ==> #[trigger] class(s[m]),
        j == s.len() || !class(s[j]),
    ensures
        scan_while(s, i, class) == j,
    decreases j - i,
{
    if i < j {
        lemma_scan_to(s, i + 1, j, class);
    }
}

/// A written pair, followed by a separator, reads back as that pair.
proof fn lemma_pair_reads_back(s: Seq<char>, i: int, p: (Seq<char>, Seq<char>))
    requires
        0 <= i,
        i + render_pair(p).len() < s.len(),
        s.subrange(i, i + render_pair(p).len()) == render_pair(p),
        separator_char(s[i + render_pair(p).len()]),
        valid_key(p.0),
        writable_value(p.1),
    ensures
        spec_pair(s, i) == Ok::<_, (ReplyErrorKind, int)>((p.0, p.1, i + render_pair(p).len())),
{
    let (k, v) = p;
    let r = render_pair(p);
    let e = i + r.len();
    let ke = i + k.len();
    assert forall|m: int| 0 <= m < r.len() implies s[i + m] == #[trigger] r[m] by {
        assert(s.subrange(i, e)[m] == s[i + m]);
    }
    assert forall|m: int| i <= m < ke implies #[trigger] key_class()(s[m]) by {
        assert(r[m - i] == k[m - i]);
    }
    assert(r[k.len() as int] == '=');
    lemma_scan_to(s, i, ke, key_class());
    if plain_value(v) {
        assert forall|m: int| ke + 1 <= m < e implies #[trigger] token_class()(s[m]) by {
            assert(r[m - i] == v[m - ke - 1]);
        }
        lemma_scan_to(s, ke + 1, e, token_class());
        if v.len() > 0 {
            assert(r[k.len() + 1int] == v[0]);
        }
        assert(s.subrange(i, ke) =~= k);
        assert forall|m: int| 0 <= m < v.len() implies #[trigger] s.subrange(ke + 1, e)[m] == v[m] by {
            assert(r[k.len() + 1 + m] == v[m]);
            assert(s[i + (k.len() + 1 + m)] == r[k.len() + 1 + m]);
        }
        assert(s.subrange(ke + 1, e) =~= v);
    } else {
        let q = ke + 2 + v.len();
        assert(r[k.len() + 1int] == '"');
        assert(r[q - i] == '"');
        assert forall|m: int| ke + 2 <= m < q implies #[trigger] quoted_class()(s[m]) by {
            assert(r[m - i] == v[m - ke - 2]);
        }
        lemma_scan_to(s, ke + 2, q, quoted_class());
        assert(s.subrange(i, ke) =~= k);
        assert forall|m: int| 0 <= m < v.len() implies #[trigger] s.subrange(ke + 2, q)[m] == v[m] by {
            assert(r[k.len() + 2 + m] == v[m]);
            assert(s[i + (k.len() + 2 + m)] == r[k.len() + 2 + m]);
        }
        assert(s.subrange(ke + 2, q) =~= v);
    }
}

/// Written pairs that close a line read back as those pairs, and the list
/// ends just before the closing newline.
proof fn lemma_pairs_read_back(s: Seq<char>, i: int, ps: PairSeq)
    requires
        0 <= i <= s.len(),
        ps.len() > 0,
        writable_pairs(ps),
        s.subrange(i, s.len() as int) == render_pairs(ps),
    ensures
        spec_pair(s, i) == Ok::<_, (ReplyErrorKind, int)>(
            (ps[0].0, ps[0].1, i + render_pair(ps[0]).len()),
        ),
        spec_more_pairs(s, i + render_pair(ps[0]).len()) == Ok::<_, (ReplyErrorKind, int)>(
            (ps.drop_first(), s.len() - 1),
        ),
    decreases ps.len(),
{
    let r = render_pair(ps[0]);
    let e = i + r.len();
    let t = render_pairs(ps);
    let rest = ps.drop_first();
    let u = render_pairs(rest);
    let tail = if ps.len() == 1 {
        seq!['\n']
    } else {
        seq![' '] + u
    };
    assert(t =~= r + tail);
    assert(valid_key(ps[0].0) && writable_value(ps[0].1));
    assert forall|j: int| i <= j < s.len() implies s[j] == #[trigger] t[j - i] by {
        assert(s.subrange(i, s.len() as int)[j - i] == s[j]);
    }
    assert forall|m: int| 0 <= m < r.len() implies #[trigger] s.subrange(i, e)[m] == r[m] by {
        assert(s[i + m] == t[i + m - i]);
        assert(t[m] == r[m]);
    }
    assert(s.subrange(i, e) =~= r);
    assert(s[e] == t[e - i]);
    assert(t[r.len() as int] == tail[0]);
    lemma_pair_reads_back(s, i, ps[0]);
    if ps.len() == 1 {
        assert(s.len() == e + 1);
        lemma_scan_to(s, e, e + 1, separator_class());
        lemma_scan_bounds(s, s.len() as int, key_class());
        assert(rest =~= Seq::<(Seq<char>, Seq<char>)>::empty());
    } else {
        assert(writable_pairs(rest)) by {
            assert forall|m: int| 0 <= m < rest.len() implies valid_key(#[trigger] rest[m].0)
                && writable_value(rest[m].1) by {
                assert(rest[m] == ps[m + 1]);
            }
        }
        assert forall|m: int| 0 <= m < u.len() implies #[trigger] s.subrange(
            e + 1,
            s.len() as int,
        )[m] == u[m] by {
            assert(s[e + 1 + m] == t[e + 1 + m - i]);
            assert(t[r.len() + 1 + m] == tail[1 + m]);
            assert(tail[1 + m] == u[m]);
        }
        assert(s.subrange(e + 1, s.len() as int) =~= u);
        assert(rest[0] == ps[1]);
        assert(valid_key(rest[0].0));
        assert(s[e + 1] == t[e + 1 - i]);
        assert(t[r.len() + 1int] == tail[1]);
        assert(u =~= render_pair(rest[0]) + (if rest.len() == 1 {
            seq!['\n']
        } else {
            seq![' '] + render_pairs(rest.drop_first())
        }));
        assert(u[0] == render_pair(rest[0])[0]);
        assert(render_pair(rest[0])[0] == rest[0].0[0]);
        assert(key_char(rest[0].0[0]));
        lemma_scan_to(s, e, e + 1, separator_class());
        lemma_pairs_read_back(s, e + 1, rest);
        assert(seq![(rest[0].0, rest[0].1)] + rest.drop_first() =~= rest);
    }
}

/// Written pairs end in a newline.
proof fn lemma_render_ends_in_newline(ps: PairSeq)
    requires
        ps.len() > 0,
    ensures
        render_pairs(ps).len() > 0,
        render_pairs(ps)[render_pairs(ps).len() - 1] == '\n',
    decreases ps.len(),
{
    if ps.len() > 1 {
        lemma_render_ends_in_newline(ps.drop_first());
    }
}

/// A line written as the verb phrase, then pairs separated by single spaces,
/// then a newline, reads back as exactly those pairs in their order, with
/// nothing left over. Values with spaces are written between quotes and read
/// back without them.
pub proof fn law_written_line_reads_back(verb: Seq<char>, ps: PairSeq)
    requires
        ps.len() > 0,
        writable_pairs(ps),
    ensures
        spec_reply(verb, verb + render_pairs(ps)) == Ok::<_, ReplyError>((Seq::<char>::empty(), ps)),
{
    let s = verb + render_pairs(ps);
    let b = verb.len() as int;
    assert(s.subrange(0, b) =~= verb);
    assert(s.subrange(b, s.len() as int) =~= render_pairs(ps));
    assert(valid_key(ps[0].0));
    assert(s[b] == ps[0].0[0]);
    assert(key_char(s[b]));
    lemma_pairs_read_back(s, b, ps);
    assert(seq![(ps[0].0, ps[0].1)] + ps.drop_first() =~= ps);
    assert(spec_pairs(s, b) == Ok::<_, ReplyError>((ps, s.len() - 1)));
    let t = render_pairs(ps);
    assert(t =~= render_pair(ps[0]) + (if ps.len() == 1 {
        seq!['\n']
    } else {
        seq![' '] + render_pairs(ps.drop_first())
    }));
    lemma_render_ends_in_newline(ps);
    assert(s[s.len() - 1] == t[t.len() - 1]);
    assert(s.subrange(s.len() as int, s.len() as int) =~= Seq::<char>::empty());
}


/// A key that is not followed by `=` makes the line fail as a malformed pair,
/// at the position where `=` was expected.
pub proof fn law_key_without_equals_rejected(verb: Seq<char>, k: Seq<char>, t: Seq<char>)
    requires
        valid_key(k),
        t.len() == 0 || (t[0] != '=' && !key_char(t[0])),
    ensures
        spec_reply(verb, verb + k + t) == Err::<(Seq<char>, PairSeq), _>(
            ReplyError { kind: ReplyErrorKind::MalformedPair, position: (verb.len() + k.len()) as usize },
        ),
{
    let s = verb + k + t;
    let b = verb.len() as int;
    let ke = b + k.len();
    assert(s.subrange(0, b) =~= verb);
    assert forall|j: int| b <= j < ke implies #[trigger] key_class()(s[j]) by {
        assert(s[j] == k[j - b]);
    }
    if t.len() > 0 {
        assert(s[ke] == t[0]);
    }
    lemma_scan_to(s, b, ke, key_class());
}

/// A quoted value that no quote closes makes the line fail, at its opening
/// quote, rather than give part of the value.
pub proof fn law_unterminated_quote_rejected(verb: Seq<char>, k: Seq<char>, t: Seq<char>)
    requires
        valid_key(k),
        forall|m: int| 0 <= m < t.len() ==> !quote_char(#[trigger] t[m]),
    ensures
        spec_reply(verb, verb + k + seq!['=', '"'] + t) == Err::<(Seq<char>, PairSeq), _>(
            ReplyError {
                kind: ReplyErrorKind::UnterminatedQuote,
                position: (verb.len() + k.len() + 1) as usize,
            },
        ),
{
    let s = verb + k + seq!['=', '"'] + t;
    let b = verb.len() as int;
    let ke = b + k.len();
    assert(s.subrange(0, b) =~= verb);
    assert forall|j: int| b <= j < ke implies #[trigger] key_class()(s[j]) by {
        assert(s[j] == k[j - b]);
    }
    assert(s[ke] == '=');
    assert(s[ke + 1] == '"');
    lemma_scan_to(s, b, ke, key_class());
    assert forall|j: int| ke + 2 <= j < s.len() implies #[trigger] quoted_class()(s[j]) by {
        assert(s[j] == t[j - ke - 2]);
    }
    lemma_scan_to(s, ke + 2, s.len() as int, quoted_class());
}

/// The list after a first pair fails only on an unterminated quote.
proof fn lemma_more_pairs_failure(s: Seq<char>, i: int)
    ensures
        spec_more_pairs(s, i) is Err ==> spec_more_pairs(s, i)->Err_0.0
            == ReplyErrorKind::UnterminatedQuote,
    decreases s.len() - i,
{
    let j = scan_while(s, i, separator_class());
    if j != i && 0 <= i <= s.len() {
        lemma_scan_bounds(s, i, separator_class());
        lemma_pair_advances(s, j);
        if spec_pair(s, j) is Ok {
            lemma_more_pairs_failure(s, spec_pair(s, j)->Ok_0.2);
        }
    }
}

/// A line that does not begin with the verb phrase, character for character
/// (one space more or less included), fails with a prefix mismatch at its
/// start; and a prefix mismatch is reported for no other line.
pub proof fn law_verb_mismatch_rejected(verb: Seq<char>, s: Seq<char>)
    ensures
        !starts_with(s, verb) ==> spec_reply(verb, s) == Err::<(Seq<char>, PairSeq), _>(
            ReplyError { kind: ReplyErrorKind::Tag, position: 0 },
        ),
        spec_reply(verb, s) is Err && spec_reply(verb, s)->Err_0.kind == ReplyErrorKind::Tag
            ==> !starts_with(s, verb),
{
    let b = verb.len() as int;
    if starts_with(s, verb) && scan_while(s, b, key_class()) != b {
        lemma_scan_bounds(s, b, key_class());
        lemma_pair_advances(s, b);
        if spec_pair(s, b) is Ok {
            lemma_more_pairs_failure(s, spec_pair(s, b)->Ok_0.2);
        }
    }
}


/// A single pair whose value cannot stand plainly is written between quotes.
proof fn lemma_quoted_rendering(k: Seq<char>, v: Seq<char>)
    requires
        !plain_value(v),
    ensures
        render_pairs(seq![(k, v)]) == k + seq!['=', '"'] + v + seq!['"', '\n'],
{
    let ps = seq![(k, v)];
    assert(ps[0] == (k, v));
    assert(render_pairs(ps) == render_pair((k, v)) + seq!['\n']);
    assert(render_pairs(ps) =~= k + seq!['=', '"'] + v + seq!['"', '\n']);
}

/// A value that holds a space or a tab, written between quotes, reads back
/// as it is, without the quotes.
pub proof fn law_quoted_value_kept(verb: Seq<char>, k: Seq<char>, v: Seq<char>)
    requires
        valid_key(k),
        exists|m: int| 0 <= m < v.len() && space_char(#[trigger] v[m]),
        forall|m: int| 0 <= m < v.len() ==> !quote_char(#[trigger] v[m]),
    ensures
        spec_reply(verb, verb + k + seq!['=', '"'] + v + seq!['"', '\n']) == Ok::<_, ReplyError>(
            (Seq::<char>::empty(), seq![(k, v)]),
        ),
{
    let ps = seq![(k, v)];
    let m = choose|m: int| 0 <= m < v.len() && space_char(#[trigger] v[m]);
    assert(separator_char(v[m]));
    assert(!plain_value(v));
    assert(ps[0] == (k, v));
    assert(writable_pairs(ps));
    lemma_quoted_rendering(k, v);
    assert(verb + render_pairs(ps) =~= verb + k + seq!['=', '"'] + v + seq!['"', '\n']);
    law_written_line_reads_back(verb, ps);
}

} // verus!
