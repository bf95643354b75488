//! Verified text utilities: decimal parsing, string equality, splitting a
//! dictionary into lines, and joining words with a separator.

use vstd::prelude::*;
use vstd::string::StrSliceExecFns;
use vstd::string::StringExecFns;

verus! {

/// Whether `c` is a decimal digit.
pub open spec fn is_digit(c: char) -> bool {
    48 <= c as int && c as int <= 57
}

/// The numeric value of a digit character (clamped to a natural for others).
pub open spec fn char_digit(c: char) -> nat {
    (c as int - 48) as nat
}

/// Whether every character of `s` is a decimal digit.
pub open spec fn all_digits(s: Seq<char>) -> bool {
    forall|i: int| 0 <= i < s.len() ==> is_digit(#[trigger] s[i])
}

/// The value of a digit string read in base ten.
pub open spec fn digits_value(s: Seq<char>) -> nat
    decreases s.len(),
{
    if s.len() == 0 {
        0
    } else {
        digits_value(s.drop_last()) * 10 + char_digit(s.last())
    }
}

/// The digits of a number token: an optional leading `+` is dropped.
pub open spec fn number_body(s: Seq<char>) -> Seq<char> {
    if s.len() >= 1 && s[0] == '+' {
        s.subrange(1, s.len() as int)
    } else {
        s
    }
}

/// What parsing a count token yields: the base-ten value of its digits, if
/// the token is an optional `+` followed by one or more digits and the value
/// fits in `usize`; nothing otherwise.
pub open spec fn parse_usize_spec(s: Seq<char>) -> Option<usize> {
    let b = number_body(s);
    if b.len() > 0 && all_digits(b) && digits_value(b) <= usize::MAX {
        Some(digits_value(b) as usize)
    } else {
        None
    }
}

/// A prefix of a digit string never exceeds the whole string's value.
pub proof fn lemma_digits_value_prefix_le(s: Seq<char>, j: int)
    requires
        0 <= j <= s.len(),
    ensures
        digits_value(s.subrange(0, j)) <= digits_value(s),
    decreases s.len() - j,
{
    if j == s.len() {
        assert(s.subrange(0, j) =~= s);
    } else {
        lemma_digits_value_prefix_le(s, j + 1);
        let t = s.subrange(0, j + 1);
        assert(t.drop_last() =~= s.subrange(0, j));
        assert(t.last() == s[j]);
        assert(digits_value(t) == digits_value(s.subrange(0, j)) * 10 + char_digit(s[j]));
        assert(digits_value(s.subrange(0, j)) * 10 >= digits_value(s.subrange(0, j)))
            by (nonlinear_arith);
    }
}

/// Reads a decimal `usize` from `s`: an optional leading `+`, then one or
/// more digits; rejects anything else and values that do not fit.
pub fn parse_usize(s: &str) -> (r: Option<usize>)
    ensures
        r == parse_usize_spec(s@),
{
    let n = s.unicode_len();
    let start: usize = if n >= 1 && s.get_char(0) == '+' {
        1
    } else {
        0
    };
    let ghost b = number_body(s@);
    proof {
        assert(b =~= s@.subrange(start as int, n as int));
    }
    if n == start {
        return None;
    }
    let mut acc: usize = 0;
    let mut i: usize = start;
    while i < n
        invariant
            n == s@.len(),
            start <= i <= n,
            start < n,
            b == number_body(s@),
            b == s@.subrange(start as int, n as int),
            acc == digits_value(b.subrange(0, i - start)),
            all_digits(b.subrange(0, i - start)),
        decreases n - i,
    {
        let c = s.get_char(i);
        let u = c as u32;
        proof {
            assert(b[i - start] == s@[i as int]);
        }
        if u < 48 || u > 57 {
            proof {
                assert(!is_digit(b[i - start]));
                assert(!all_digits(b));
            }
            return None;
        }
        let d = (u - 48) as usize;
        let ghost pre = b.subrange(0, i - start);
        let ghost ext = b.subrange(0, i + 1 - start);
        proof {
            assert(ext.drop_last() =~= pre);
            assert(ext.last() == b[i - start]);
            assert(char_digit(b[i - start]) == d as nat);
            assert(digits_value(ext) == acc * 10 + d);
        }
        if acc > (usize::MAX - d) / 10 {
            proof {
                assert(acc * 10 + d > usize::MAX) by (nonlinear_arith)
                    requires
                        acc > (usize::MAX - d as int) / 10,
                        0 <= d <= 9,
                        d <= usize::MAX,
                        acc >= 0,
                ;
                lemma_digits_value_prefix_le(b, i + 1 - start);
                assert(digits_value(b) > usize::MAX);
            }
            return None;
        }
        proof {
            assert(acc * 10 + d <= usize::MAX) by (nonlinear_arith)
                requires
                    acc <= (usize::MAX - d as int) / 10,
                    0 <= d <= 9,
                    d <= usize::MAX,
                    acc >= 0,
            ;
        }
        acc = acc * 10 + d;
        i = i + 1;
    }
    proof {
        assert(b.subrange(0, i - start) =~= b);
    }
    Some(acc)
}

/// Character-by-character string comparison.
pub fn str_eq(a: &str, b: &str) -> (r: bool)
    ensures
        r == (a@ == b@),
{
    let na = a.unicode_len();
    let nb = b.unicode_len();
    if na != nb {
        return false;
    }
    let mut i: usize = 0;
    while i < na
        invariant
            i <= na,
            na == a@.len(),
            na == b@.len(),
            forall|j: int| 0 <= j < i ==> a@[j] == b@[j],
        decreases na - i,
    {
        if a.get_char(i) != b.get_char(i) {
            return false;
        }
        i = i + 1;
    }
    proof {
        assert(a@ =~= b@);
    }
    true
}

/// A line with a trailing carriage return dropped.
pub open spec fn strip_cr(s: Seq<char>) -> Seq<char> {
    if s.len() > 0 && s.last() == '\r' {
        s.drop_last()
    } else {
        s
    }
}

/// The position of the first occurrence of `c` in `s`, or `s.len()` if
/// there is none.
pub open spec fn first_occurrence(s: Seq<char>, c: char) -> int
    decreases s.len(),
{
    if s.len() == 0 {
        0
    } else if s[0] == c {
        0
    } else {
        1 + first_occurrence(s.subrange(1, s.len() as int), c)
    }
}

/// The lines of `s`: maximal newline-free segments, each with a trailing
/// carriage return dropped; a trailing newline does not open a final empty
/// line.
pub open spec fn lines_spec(s: Seq<char>) -> Seq<Seq<char>>
    decreases s.len(),
{
    if s.len() == 0 {
        Seq::empty()
    } else {
        let i = first_occurrence(s, '\n');
        if 0 <= i && i < s.len() {
            seq![strip_cr(s.subrange(0, i))] + lines_spec(s.subrange(i + 1, s.len() as int))
        } else {
            seq![strip_cr(s)]
        }
    }
}

/// `first_occurrence` is the unique position with no occurrence before it
/// and an occurrence (or the end) at it.
pub proof fn lemma_first_occurrence_is(s: Seq<char>, c: char, j: int)
    requires
        0 <= j <= s.len(),
        forall|k: int| 0 <= k < j ==> s[k] != c,
        j < s.len() ==> s[j] == c,
    ensures
        first_occurrence(s, c) == j,
    decreases j,
{
    if j == 0 {
    } else {
        let t = s.subrange(1, s.len() as int);
        assert(forall|k: int| 0 <= k < j - 1 ==> t[k] == s[k + 1] && t[k] != c);
        assert(j - 1 < t.len() ==> t[j - 1] == s[j]);
        lemma_first_occurrence_is(t, c, j - 1);
    }
}

/// One unfolding of `lines_spec` at a known first newline position.
pub proof fn lemma_lines_step(t: Seq<char>, j: int)
    requires
        t.len() > 0,
        0 <= j <= t.len(),
        forall|k: int| 0 <= k < j ==> t[k] != '\n',
        j < t.len() ==> t[j] == '\n',
    ensures
        lines_spec(t) == seq![strip_cr(t.subrange(0, j))] + (if j < t.len() {
            lines_spec(t.subrange(j + 1, t.len() as int))
        } else {
            Seq::<Seq<char>>::empty()
        }),
{
    lemma_first_occurrence_is(t, '\n', j);
    if j == t.len() {
        assert(t.subrange(0, j) =~= t);
        assert(seq![strip_cr(t)] =~= seq![strip_cr(t.subrange(0, j))]
            + Seq::<Seq<char>>::empty());
    }
}

/// Splits a dictionary text into its lines.
pub fn split_lines(s: &str) -> (r: Vec<String>)
    ensures
        r.deep_view() == lines_spec(s@),
{
    let n = s.unicode_len();
    let mut out: Vec<String> = Vec::new();
    let mut p: usize = 0;
    proof {
        assert(s@.subrange(0, n as int) =~= s@);
        assert(out.deep_view() =~= Seq::<Seq<char>>::empty());
        assert(out.deep_view() + lines_spec(s@) =~= lines_spec(s@));
    }
    while p < n
        invariant
            p <= n,
            n == s@.len(),
            out.deep_view() + lines_spec(s@.subrange(p as int, n as int)) == lines_spec(s@),
        decreases n - p,
    {
        let mut j: usize = p;
        while j < n && s.get_char(j) != '\n'
            invariant
                p <= j <= n,
                n == s@.len(),
                forall|k: int| p <= k < j ==> s@[k] != '\n',
            decreases n - j,
        {
            j = j + 1;
        }
        let end = if j > p && s.get_char(j - 1) == '\r' {
            j - 1
        } else {
            j
        };
        let line = s.substring_char(p, end).to_owned();
        let ghost old_out = out.deep_view();
        out.push(line);
        proof {
            let t = s@.subrange(p as int, n as int);
            assert(forall|k: int| 0 <= k < j - p ==> t[k] == s@[k + p] && t[k] != '\n');
            assert(j < n ==> t[j - p] == s@[j as int]);
            lemma_lines_step(t, j - p);
            assert(t.subrange(0, j - p) =~= s@.subrange(p as int, j as int));
            assert(line@ == strip_cr(s@.subrange(p as int, j as int))) by {
                if j > p && s@[j - 1] == '\r' {
                    assert(s@.subrange(p as int, j as int).drop_last()
                        =~= s@.subrange(p as int, j - 1));
                } else {
                    assert(strip_cr(s@.subrange(p as int, j as int))
                        == s@.subrange(p as int, j as int));
                }
            }
            assert(out.deep_view() =~= old_out.push(line@));
            if j < n {
                assert(t.subrange(j - p + 1, t.len() as int)
                    =~= s@.subrange(j + 1, n as int));
                assert(old_out.push(line@) + lines_spec(s@.subrange(j + 1, n as int))
                    =~= old_out + lines_spec(t));
            } else {
                assert(s@.subrange(n as int, n as int).len() == 0);
                assert(lines_spec(s@.subrange(n as int, n as int))
                    =~= Seq::<Seq<char>>::empty());
                assert(old_out.push(line@) + lines_spec(s@.subrange(n as int, n as int))
                    =~= old_out + lines_spec(t));
            }
        }
        p = if j < n {
            j + 1
        } else {
            n
        };
    }
    proof {
        assert(s@.subrange(p as int, n as int).len() == 0);
        assert(out.deep_view() + lines_spec(s@.subrange(p as int, n as int))
            =~= out.deep_view());
    }
    out
}

/// The words joined with the separator between consecutive words.
pub open spec fn join_spec(ws: Seq<Seq<char>>, sep: Seq<char>) -> Seq<char>
    decreases ws.len(),
{
    if ws.len() == 0 {
        Seq::empty()
    } else if ws.len() == 1 {
        ws[0]
    } else {
        ws[0] + sep + join_spec(ws.subrange(1, ws.len() as int), sep)
    }
}

/// Appending one more word to a join appends one separator and the word.
pub proof fn lemma_join_push(ws: Seq<Seq<char>>, sep: Seq<char>, w: Seq<char>)
    ensures
        join_spec(ws.push(w), sep) == if ws.len() == 0 {
            w
        } else {
            join_spec(ws, sep) + sep + w
        },
    decreases ws.len(),
{
    let e = ws.push(w);
    if ws.len() == 0 {
        assert(e.len() == 1);
        assert(e[0] == w);
    } else {
        assert(e[0] == ws[0]);
        assert(e.subrange(1, e.len() as int) =~= ws.subrange(1, ws.len() as int).push(w));
        lemma_join_push(ws.subrange(1, ws.len() as int), sep, w);
        if ws.len() == 1 {
            assert(ws.subrange(1, ws.len() as int).len() == 0);
            assert(join_spec(e, sep) == ws[0] + sep + w);
            assert(join_spec(ws, sep) == ws[0]);
        } else {
            let tail = ws.subrange(1, ws.len() as int);
            assert(join_spec(e, sep) == ws[0] + sep + (join_spec(tail, sep) + sep + w));
            assert(join_spec(ws, sep) == ws[0] + sep + join_spec(tail, sep));
            assert(ws[0] + sep + (join_spec(tail, sep) + sep + w)
                =~= (ws[0] + sep + join_spec(tail, sep)) + sep + w);
        }
    }
}

/// Joins the words with the separator between consecutive words.
pub fn join_words(words: &Vec<String>, sep: &str) -> (r: String)
    ensures
        r@ == join_spec(words.deep_view(), sep@),
{
    let mut out = String::new();
    let mut i: usize = 0;
    while i < words.len()
        invariant
            i <= words.len(),
            out@ == join_spec(words.deep_view().subrange(0, i as int), sep@),
        decreases words.len() - i,
    {
        let ghost ws = words.deep_view();
        let ghost pre = ws.subrange(0, i as int);
        if i > 0 {
            out.append(sep);
        }
        out.append(words[i].as_str());
        proof {
            assert(ws.subrange(0, i + 1).drop_last() =~= pre);
            assert(ws.subrange(0, i + 1) =~= pre.push(ws[i as int]));
            lemma_join_push(pre, sep@, ws[i as int]);
            assert(words[i as int]@ == ws[i as int]);
        }
        i = i + 1;
    }
    proof {
        assert(words.deep_view().subrange(0, i as int) =~= words.deep_view());
    }
    out
}

/// The segments of `s` between occurrences of `c`: every occurrence is a
/// boundary, so `k` occurrences give `k + 1` segments.
pub open spec fn split_char(s: Seq<char>, c: char) -> Seq<Seq<char>>
    decreases s.len(),
{
    let i = first_occurrence(s, c);
    if 0 <= i && i < s.len() {
        seq![s.subrange(0, i)] + split_char(s.subrange(i + 1, s.len() as int), c)
    } else {
        seq![s]
    }
}

/// Splitting a join recovers the words: when the separator is one character
/// that no word contains, the join of any nonempty word sequence splits back
/// into exactly those words. In particular the join contains exactly as many
/// words as were joined.
pub proof fn lemma_split_join_round_trip(ws: Seq<Seq<char>>, c: char)
    requires
        ws.len() > 0,
        forall|i: int, k: int|
            0 <= i < ws.len() && 0 <= k < ws[i].len() ==> #[trigger] ws[i][k] != c,
    ensures
        split_char(join_spec(ws, seq![c]), c) == ws,
    decreases ws.len(),
{
    let sep = seq![c];
    let j = join_spec(ws, sep);
    if ws.len() == 1 {
        assert(j == ws[0]);
        assert(forall|k: int| 0 <= k < j.len() ==> j[k] != c);
        lemma_first_occurrence_is(j, c, j.len() as int);
        assert(split_char(j, c) == seq![ws[0]]);
        assert(seq![ws[0]] =~= ws);
    } else {
        let head = ws[0];
        let tail = ws.subrange(1, ws.len() as int);
        let rest = join_spec(tail, sep);
        assert(j == head + sep + rest);
        let p = head.len() as int;
        assert forall|k: int| 0 <= k < p implies j[k] != c by {
            assert(j[k] == head[k]);
        }
        assert(j[p] == c);
        lemma_first_occurrence_is(j, c, p);
        assert(j.subrange(0, p) =~= head);
        assert(j.subrange(p + 1, j.len() as int) =~= rest);
        assert(split_char(j, c) == seq![head] + split_char(rest, c));
        assert(forall|i: int, k: int|
            0 <= i < tail.len() && 0 <= k < tail[i].len() ==> #[trigger] tail[i][k] != c);
        lemma_split_join_round_trip(tail, c);
        assert(seq![head] + tail =~= ws);
    }
}

} // verus!
