//! Verified text helpers: splitting on a separator, ASCII-whitespace
//! trimming, and filename sanitizing, each specified over character
//! sequences.

use vstd::prelude::*;
use vstd::string::StrSliceExecFns;
use vstd::string::StringExecFns;

verus! {

/// ASCII whitespace, as trimming removes it.
pub open spec fn is_space(c: char) -> bool {
    c == ' ' || c == '\t' || c == '\r' || c == '\n'
}

/// Splitting on a separator: the pieces between separators, in order;
/// an empty input is one empty piece.
pub open spec fn spec_split(s: Seq<char>, sep: char) -> Seq<Seq<char>>
    decreases s.len(),
{
    if s.len() == 0 {
        seq![Seq::<char>::empty()]
    } else if s[0] == sep {
        seq![Seq::<char>::empty()] + spec_split(s.drop_first(), sep)
    } else {
        let rest = spec_split(s.drop_first(), sep);
        rest.update(0, seq![s[0]] + rest[0])
    }
}

/// Splits a string on a separator character.
pub fn split_char(s: &str, sep: char) -> (r: Vec<String>)
    ensures
        r.deep_view() == spec_split(s@, sep),
        r@.len() >= 1,
    decreases s@.len(),
{
    let n: usize = s.unicode_len();
    if n == 0 {
        let mut out: Vec<String> = Vec::new();
        out.push(String::new());
        proof {
            assert(out.deep_view() =~~= spec_split(s@, sep));
        }
        return out;
    }
    let c: char = s.get_char(0);
    let tail: &str = s.substring_char(1, n);
    proof {
        assert(tail@ =~= s@.drop_first());
    }
    let rest: Vec<String> = split_char(tail, sep);
    if c == sep {
        let mut out: Vec<String> = Vec::new();
        out.push(String::new());
        let mut i: usize = 0;
        while i < rest.len()
            invariant
                0 <= i <= rest@.len(),
                out@.len() == i + 1,
                out@[0]@ =~= Seq::<char>::empty(),
                forall|k: int| 1 <= k <= i ==> (#[trigger] out@[k])@ == rest@[k - 1]@,
            decreases rest@.len() - i,
        {
            out.push(rest[i].clone());
            i = i + 1;
        }
        proof {
            let expected = seq![Seq::<char>::empty()] + rest.deep_view();
            assert(out.deep_view().len() == expected.len());
            assert(forall|k: int|
                0 <= k < out@.len() ==> #[trigger] out.deep_view()[k] == out@[k]@);
            assert(forall|k: int|
                0 <= k < rest@.len() ==> #[trigger] rest.deep_view()[k] == rest@[k]@);
            assert(out.deep_view() =~~= expected);
            assert(out.deep_view() =~~= spec_split(s@, sep));
        }
        out
    } else {
        let mut out: Vec<String> = Vec::new();
        let first_char: &str = s.substring_char(0, 1);
        proof {
            assert(first_char@ =~= seq![s@[0]]);
        }
        let mut head: String = String::from_str(first_char);
        head.append(rest[0].as_str());
        out.push(head);
        let mut i: usize = 1;
        proof {
            assert(rest@.len() >= 1);
        }
        while i < rest.len()
            invariant
                1 <= i <= rest@.len(),
                out@.len() == i,
                out@[0]@ =~= seq![s@[0]] + rest@[0]@,
                s@.len() >= 1,
                forall|k: int| 1 <= k < i ==> (#[trigger] out@[k])@ == rest@[k]@,
            decreases rest@.len() - i,
        {
            out.push(rest[i].clone());
            i = i + 1;
        }
        proof {
            let rd = rest.deep_view();
            let expected = rd.update(0, seq![s@[0]] + rd[0]);
            assert(forall|k: int|
                0 <= k < out@.len() ==> #[trigger] out.deep_view()[k] == out@[k]@);
            assert(forall|k: int|
                0 <= k < rest@.len() ==> #[trigger] rest.deep_view()[k] == rest@[k]@);
            assert(out.deep_view().len() == expected.len());
            assert(out.deep_view() =~~= expected);
            assert(out.deep_view() =~~= spec_split(s@, sep));
        }
        out
    }
}

/// The input without leading ASCII whitespace.
pub open spec fn spec_trim_front(s: Seq<char>) -> Seq<char>
    decreases s.len(),
{
    if s.len() > 0 && is_space(s[0]) {
        spec_trim_front(s.drop_first())
    } else {
        s
    }
}

/// The input without trailing ASCII whitespace.
pub open spec fn spec_trim_back(s: Seq<char>) -> Seq<char>
    decreases s.len(),
{
    if s.len() > 0 && is_space(s.last()) {
        spec_trim_back(s.drop_last())
    } else {
        s
    }
}

/// The input without leading or trailing ASCII whitespace.
pub open spec fn spec_trim(s: Seq<char>) -> Seq<char> {
    spec_trim_back(spec_trim_front(s))
}

proof fn lemma_trim_front_skip(s: Seq<char>, i: int)
    requires
        0 <= i <= s.len(),
        forall|j: int| 0 <= j < i ==> is_space(#[trigger] s[j]),
        i < s.len() ==> !is_space(s[i]),
    ensures
        spec_trim_front(s) =~= s.subrange(i, s.len() as int),
    decreases i,
{
    if i == 0 {
        if s.len() > 0 {
            assert(!is_space(s[0]));
        }
        assert(s.subrange(0, s.len() as int) =~= s);
    } else {
        assert(is_space(s[0]));
        assert(forall|j: int| 0 <= j < i - 1 ==> is_space(#[trigger] s.drop_first()[j]));
        lemma_trim_front_skip(s.drop_first(), i - 1);
        assert(s.drop_first().subrange(i - 1, s.drop_first().len() as int) =~= s.subrange(
            i,
            s.len() as int,
        ));
    }
}

proof fn lemma_trim_back_take(s: Seq<char>, i: int)
    requires
        0 <= i <= s.len(),
        forall|j: int| i <= j < s.len() ==> is_space(#[trigger] s[j]),
        i > 0 ==> !is_space(s[i - 1]),
    ensures
        spec_trim_back(s) =~= s.subrange(0, i),
    decreases s.len() - i,
{
    if i == s.len() {
        if s.len() > 0 && is_space(s.last()) {
            assert(false);
        }
        assert(s.subrange(0, s.len() as int) =~= s);
    } else {
        assert(is_space(s.last()));
        assert(forall|j: int| i <= j < s.drop_last().len() ==> is_space(#[trigger] s.drop_last()[j]));
        lemma_trim_back_take(s.drop_last(), i);
        assert(s.drop_last().subrange(0, i) =~= s.subrange(0, i));
    }
}

fn is_space_char(c: char) -> (r: bool)
    ensures
        r == is_space(c),
{
    c == ' ' || c == '\t' || c == '\r' || c == '\n'
}

/// Trims ASCII whitespace from both ends.
pub fn trim_str(s: &str) -> (r: String)
    ensures
        r@ == spec_trim(s@),
{
    let n: usize = s.unicode_len();
    let mut start: usize = 0;
    while start < n && is_space_char(s.get_char(start))
        invariant
            0 <= start <= n,
            n == s@.len(),
            forall|j: int| 0 <= j < start ==> is_space(#[trigger] s@[j]),
        decreases n - start,
    {
        start = start + 1;
    }
    let mut end: usize = n;
    while end > start && is_space_char(s.get_char(end - 1))
        invariant
            start <= end <= n,
            n == s@.len(),
            forall|j: int| 0 <= j < start ==> is_space(#[trigger] s@[j]),
            start < s@.len() ==> !is_space(s@[start as int]),
            forall|j: int| end <= j < n ==> is_space(#[trigger] s@[j]),
        decreases end,
    {
        end = end - 1;
    }
    proof {
        lemma_trim_front_skip(s@, start as int);
        let front = s@.subrange(start as int, s@.len() as int);
        let rel = end - start;
        assert(forall|j: int|
            rel <= j < front.len() ==> is_space(#[trigger] front[j]));
        if rel > 0 {
            assert(front[rel - 1] == s@[end - 1]);
            assert(!is_space(front[rel - 1]));
        }
        lemma_trim_back_take(front, rel as int);
        assert(front.subrange(0, rel as int) =~= s@.subrange(start as int, end as int));
    }
    let piece: &str = s.substring_char(start, end);
    String::from_str(piece)
}

/// Filename sanitizing: ASCII letters, digits, hyphens and
/// underscores are kept; every other character becomes an underscore.
pub open spec fn spec_sanitize_char(c: char) -> char {
    if ('a' <= c <= 'z') || ('A' <= c <= 'Z') || ('0' <= c <= '9') || c == '-' || c == '_' {
        c
    } else {
        '_'
    }
}

/// A symbol made safe for use in a filename.
pub fn sanitize_symbol_for_filename(symbol: &str) -> (r: String)
    ensures
        r@ == symbol@.map_values(|c: char| spec_sanitize_char(c)),
{
    let n: usize = symbol.unicode_len();
    let mut out: String = String::new();
    let mut i: usize = 0;
    while i < n
        invariant
            0 <= i <= n,
            n == symbol@.len(),
            out@ =~= symbol@.subrange(0, i as int).map_values(|c: char| spec_sanitize_char(c)),
        decreases n - i,
    {
        let c: char = symbol.get_char(i);
        let keep: bool = (c >= 'a' && c <= 'z') || (c >= 'A' && c <= 'Z') || (c >= '0' && c <= '9')
            || c == '-' || c == '_';
        if keep {
            let piece: &str = symbol.substring_char(i, i + 1);
            proof {
                assert(piece@ =~= seq![symbol@[i as int]]);
            }
            out.append(piece);
        } else {
            proof {
                reveal_strlit("_");
            }
            out.append("_");
        }
        proof {
            assert(out@ =~= symbol@.subrange(0, i + 1).map_values(
                |ch: char| spec_sanitize_char(ch),
            ));
        }
        i = i + 1;
    }
    proof {
        assert(symbol@.subrange(0, n as int) =~= symbol@);
    }
    out
}


/// A profit-log tag made safe for use in a filename: the same rule as
/// symbol sanitizing.
pub fn sanitize_pnl_tag(raw: &str) -> (r: String)
    ensures
        r@ == raw@.map_values(|c: char| spec_sanitize_char(c)),
{
    sanitize_symbol_for_filename(raw)
}

/// Whether a file name is a profit log: it starts with the profit-log
/// prefix and carries the JSON-lines extension.
pub open spec fn spec_is_pnl_log_file(s: Seq<char>) -> bool {
    &&& s.len() >= 10
    &&& s[0] == 'p' && s[1] == 'n' && s[2] == 'l' && s[3] == '-'
    &&& s[s.len() - 6] == '.' && s[s.len() - 5] == 'j' && s[s.len() - 4] == 's' && s[s.len()
        - 3] == 'o' && s[s.len() - 2] == 'n' && s[s.len() - 1] == 'l'
}

/// Whether a file name is a profit log.
pub fn is_pnl_log_file(name: &str) -> (r: bool)
    ensures
        r == spec_is_pnl_log_file(name@),
{
    let n: usize = name.unicode_len();
    if n < 10 {
        return false;
    }
    name.get_char(0) == 'p' && name.get_char(1) == 'n' && name.get_char(2) == 'l'
        && name.get_char(3) == '-' && name.get_char(n - 6) == '.' && name.get_char(n - 5) == 'j'
        && name.get_char(n - 4) == 's' && name.get_char(n - 3) == 'o' && name.get_char(n - 2)
        == 'n' && name.get_char(n - 1) == 'l'
}

/// Cleaning a list of pieces: each piece trimmed, empty pieces
/// dropped.
pub open spec fn spec_clean_pieces(pieces: Seq<Seq<char>>) -> Seq<Seq<char>>
    decreases pieces.len(),
{
    if pieces.len() == 0 {
        Seq::empty()
    } else {
        let t = spec_trim(pieces[0]);
        let rest = spec_clean_pieces(pieces.drop_first());
        if t.len() == 0 {
            rest
        } else {
            seq![t] + rest
        }
    }
}

/// Trims every piece and drops the empty ones.
pub fn clean_pieces(pieces: &Vec<String>) -> (r: Vec<String>)
    ensures
        r.deep_view() == spec_clean_pieces(pieces.deep_view()),
{
    let mut out: Vec<String> = Vec::new();
    let ghost pdv = pieces.deep_view();
    let mut i: usize = 0;
    let n: usize = pieces.len();
    proof {
        assert(pdv.subrange(0, n as int) =~~= pdv);
    }
    while i < n
        invariant
            0 <= i <= n,
            n == pieces@.len(),
            pdv == pieces.deep_view(),
            spec_clean_pieces(pdv) =~~= out.deep_view() + spec_clean_pieces(
                pdv.subrange(i as int, n as int),
            ),
        decreases n - i,
    {
        let ghost prev_out = out.deep_view();
        let t: String = trim_str(pieces[i].as_str());
        proof {
            assert(pdv.subrange(i as int, n as int)[0] == pdv[i as int]);
            assert(pdv.subrange(i as int, n as int).drop_first() =~~= pdv.subrange(
                i + 1,
                n as int,
            ));
            assert(pdv[i as int] == pieces@[i as int]@);
        }
        if !t.as_str().is_empty() {
            out.push(t);
            proof {
                assert(out.deep_view() =~~= prev_out + seq![spec_trim(pdv[i as int])]);
                assert(out.deep_view() + spec_clean_pieces(pdv.subrange(i + 1, n as int))
                    =~~= prev_out + spec_clean_pieces(pdv.subrange(i as int, n as int)));
            }
        }
        i = i + 1;
    }
    proof {
        assert(spec_clean_pieces(pdv.subrange(n as int, n as int)) =~~= Seq::<Seq<char>>::empty());
        assert(out.deep_view() + Seq::<Seq<char>>::empty() =~~= out.deep_view());
    }
    out
}

} // verus!
