//! Verified helpers on strings and character sequences: prefix tests,
//! joining and splitting on newlines, and decimal rendering of bytes.

use vstd::prelude::*;
use vstd::string::StrSliceExecFns;
use vstd::string::StringExecFns;
use crate::color::Color;

verus! {

/// `p` is an initial segment of `s`.
pub open spec fn is_prefix_of(p: Seq<char>, s: Seq<char>) -> bool {
    p.len() <= s.len() && s.subrange(0, p.len() as int) == p
}

pub fn has_prefix(s: &str, p: &str) -> (r: bool)
    ensures
        r == is_prefix_of(p@, s@),
{
    let sn = s.unicode_len();
    let pn = p.unicode_len();
    if pn > sn {
        return false;
    }
    let mut i: usize = 0;
    while i < pn
        invariant
            i <= pn,
            pn == p@.len(),
            sn == s@.len(),
            pn <= sn,
            forall|j: int| 0 <= j < i ==> s@[j] == p@[j],
        decreases pn - i,
    {
        if s.get_char(i) != p.get_char(i) {
            assert(s@.subrange(0, pn as int)[i as int] != p@[i as int]);
            return false;
        }
        i += 1;
    }
    proof {
        assert(s@.subrange(0, pn as int) =~= p@);
    }
    true
}

pub fn str_eq(a: &str, b: &str) -> (r: bool)
    ensures
        r == (a@ == b@),
{
    let an = a.unicode_len();
    let bn = b.unicode_len();
    if an != bn {
        proof {
            if a@ == b@ {
                assert(a@.len() == b@.len());
            }
        }
        return false;
    }
    let mut i: usize = 0;
    while i < an
        invariant
            i <= an,
            an == a@.len(),
            bn == b@.len(),
            an == bn,
            forall|j: int| 0 <= j < i ==> a@[j] == b@[j],
        decreases an - i,
    {
        if a.get_char(i) != b.get_char(i) {
            return false;
        }
        i += 1;
    }
    proof {
        assert(a@ =~= b@);
    }
    true
}

pub fn first_char(s: &str) -> (r: Option<char>)
    ensures
        match r {
            Some(c) => s@.len() > 0 && c == s@[0],
            None => s@.len() == 0,
        },
{
    if s.unicode_len() == 0 {
        None
    } else {
        Some(s.get_char(0))
    }
}

/// The sequences of `ls`, joined with single newlines (no trailing newline).
pub open spec fn spec_join(ls: Seq<Seq<char>>) -> Seq<char>
    decreases ls.len(),
{
    if ls.len() == 0 {
        Seq::empty()
    } else if ls.len() == 1 {
        ls[0]
    } else {
        spec_join(ls.drop_last()) + "\n"@ + ls.last()
    }
}

pub fn join_lines(v: &Vec<String>) -> (r: String)
    ensures
        r@ == spec_join(v.deep_view()),
{
    let mut r = String::new();
    let mut i: usize = 0;
    while i < v.len()
        invariant
            i <= v.len(),
            r@ == spec_join(v.deep_view().subrange(0, i as int)),
        decreases v.len() - i,
    {
        if i > 0 {
            r.append("\n");
        }
        r.append(v[i].as_str());
        proof {
            let dv = v.deep_view();
            let pre = dv.subrange(0, i as int);
            let cur = dv.subrange(0, i + 1);
            assert(cur.drop_last() =~= pre);
            assert(cur.last() == dv[i as int]);
            if i == 0 {
                assert(cur.len() == 1);
                assert(cur[0] == dv[0]);
            }
        }
        i += 1;
    }
    proof {
        assert(v.deep_view().subrange(0, v.len() as int) =~= v.deep_view());
    }
    r
}

/// Length of the first line of `s`, counting its terminating newline if any.
pub open spec fn line_break(s: Seq<char>) -> int
    decreases s.len(),
{
    if s.len() == 0 {
        0
    } else if s[0] == '\n' {
        1
    } else {
        1 + line_break(s.skip(1))
    }
}

pub proof fn lemma_line_break_bounds(s: Seq<char>)
    ensures
        0 <= line_break(s) <= s.len(),
        s.len() > 0 ==> 1 <= line_break(s),
    decreases s.len(),
{
    if s.len() > 0 && s[0] != '\n' {
        lemma_line_break_bounds(s.skip(1));
    }
}

/// If the first newline of `s` stands at `m`, the first line is `m + 1` long.
pub proof fn lemma_line_break_at(s: Seq<char>, m: int)
    requires
        0 <= m < s.len(),
        s[m] == '\n',
        forall|j: int| 0 <= j < m ==> s[j] != '\n',
    ensures
        line_break(s) == m + 1,
    decreases m,
{
    if m > 0 {
        lemma_line_break_at(s.skip(1), m - 1);
    }
}

/// A sequence without newlines is a single line.
pub proof fn lemma_line_break_none(s: Seq<char>)
    requires
        forall|j: int| 0 <= j < s.len() ==> s[j] != '\n',
    ensures
        line_break(s) == s.len(),
    decreases s.len(),
{
    if s.len() > 0 {
        lemma_line_break_none(s.skip(1));
    }
}

/// `s` split into lines, each line keeping its terminating newline
/// (the final line may lack one). The empty sequence has no lines.
pub open spec fn spec_lwe(s: Seq<char>) -> Seq<Seq<char>>
    decreases s.len(),
    when s.len() >= 0
    via spec_lwe_decreases
{
    if s.len() == 0 {
        Seq::empty()
    } else {
        seq![s.take(line_break(s))] + spec_lwe(s.skip(line_break(s)))
    }
}

#[via_fn]
proof fn spec_lwe_decreases(s: Seq<char>) {
    if s.len() > 0 {
        lemma_line_break_bounds(s);
    }
}

/// Concatenation of a sequence of sequences.
pub open spec fn concat_all(cs: Seq<Seq<char>>) -> Seq<char>
    decreases cs.len(),
{
    if cs.len() == 0 {
        Seq::empty()
    } else {
        concat_all(cs.drop_last()) + cs.last()
    }
}

pub proof fn lemma_concat_all_append(a: Seq<Seq<char>>, b: Seq<Seq<char>>)
    ensures
        concat_all(a + b) == concat_all(a) + concat_all(b),
    decreases b.len(),
{
    if b.len() == 0 {
        assert(a + b =~= a);
        assert(concat_all(a) + concat_all(b) =~= concat_all(a));
    } else {
        lemma_concat_all_append(a, b.drop_last());
        assert((a + b).drop_last() =~= a + b.drop_last());
        assert(concat_all(a) + concat_all(b.drop_last()) + b.last() =~= concat_all(a) + (
        concat_all(b.drop_last()) + b.last()));
    }
}

pub proof fn lemma_concat_all_single(x: Seq<char>)
    ensures
        concat_all(seq![x]) == x,
{
    assert(seq![x].drop_last() =~= Seq::<Seq<char>>::empty());
    assert(concat_all(seq![x].drop_last()) == Seq::<char>::empty());
    assert(Seq::<char>::empty() + x =~= x);
}

/// Splitting keeps every character: the lines of `s` concatenate back to `s`.
pub proof fn lemma_lwe_concat(s: Seq<char>)
    ensures
        concat_all(spec_lwe(s)) == s,
    decreases s.len(),
{
    if s.len() > 0 {
        lemma_line_break_bounds(s);
        let n = line_break(s);
        lemma_lwe_concat(s.skip(n));
        lemma_concat_all_append(seq![s.take(n)], spec_lwe(s.skip(n)));
        let single = seq![s.take(n)];
        assert(single.drop_last() =~= Seq::<Seq<char>>::empty());
        assert(concat_all(single.drop_last()) == Seq::<char>::empty());
        assert(concat_all(single) == Seq::<char>::empty() + s.take(n));
        assert(Seq::<char>::empty() + s.take(n) =~= s.take(n));
        assert(s.take(n) + s.skip(n) =~= s);
    }
}

pub fn split_lines_keep(s: &str) -> (r: Vec<String>)
    ensures
        r.deep_view() == spec_lwe(s@),
{
    let n = s.unicode_len();
    let mut r: Vec<String> = Vec::new();
    let mut start: usize = 0;
    proof {
        assert(s@.skip(0) =~= s@);
        assert(r.deep_view() =~= Seq::<Seq<char>>::empty());
        assert(Seq::<Seq<char>>::empty() + spec_lwe(s@) =~= spec_lwe(s@));
    }
    while start < n
        invariant
            start <= n,
            n == s@.len(),
            spec_lwe(s@) == r.deep_view() + spec_lwe(s@.skip(start as int)),
        decreases n - start,
    {
        let mut end: usize = start;
        let mut found = false;
        while !found && end < n
            invariant
                start <= end <= n,
                n == s@.len(),
                found ==> end < n && s@[end as int] == '\n',
                forall|j: int| start <= j < end ==> s@[j] != '\n',
            decreases n - end + (if found { 0int } else { 1int }),
        {
            if s.get_char(end) == '\n' {
                found = true;
            } else {
                end += 1;
            }
        }
        let ghost rest = s@.skip(start as int);
        proof {
            if found {
                assert(rest[end - start] == '\n');
                assert(forall|j: int| 0 <= j < end - start ==> rest[j] != '\n');
                lemma_line_break_at(rest, end - start);
            } else {
                assert(forall|j: int| 0 <= j < rest.len() ==> rest[j] != '\n');
                lemma_line_break_none(rest);
            }
        }
        let stop: usize = if found {
            end + 1
        } else {
            end
        };
        let ghost prev_dv = r.deep_view();
        let piece = s.substring_char(start, stop);
        r.push(piece.to_owned());
        proof {
            assert(line_break(rest) == stop - start);
            assert(r.deep_view() =~= prev_dv + seq![s@.subrange(start as int, stop as int)]);
            assert(rest.take(stop - start) =~= s@.subrange(start as int, stop as int));
            assert(rest.skip(stop - start) =~= s@.skip(stop as int));
            assert(prev_dv + (seq![rest.take(line_break(rest))] + spec_lwe(
                rest.skip(line_break(rest)),
            )) =~= (prev_dv + seq![rest.take(line_break(rest))]) + spec_lwe(
                rest.skip(line_break(rest)),
            ));
        }
        start = stop;
    }
    proof {
        assert(spec_lwe(s@.skip(start as int)) =~= Seq::<Seq<char>>::empty());
        assert(r.deep_view() + Seq::<Seq<char>>::empty() =~= r.deep_view());
    }
    r
}

/// The texts of a sequence of styled parts, concatenated.
pub open spec fn parts_text(parts: Seq<(Color, Seq<char>)>) -> Seq<char>
    decreases parts.len(),
{
    if parts.len() == 0 {
        Seq::empty()
    } else {
        parts_text(parts.drop_last()) + parts.last().1
    }
}

/// The ghost contents of a vector of styled parts.
pub open spec fn parts_view(v: Seq<(Color, String)>) -> Seq<(Color, Seq<char>)> {
    Seq::new(v.len(), |i: int| (v[i].0, v[i].1@))
}

/// The decimal digit character for `d` (meaningful only for `0 <= d <= 9`).
pub open spec fn digit_char(d: int) -> char {
    if d == 0 {
        '0'
    } else if d == 1 {
        '1'
    } else if d == 2 {
        '2'
    } else if d == 3 {
        '3'
    } else if d == 4 {
        '4'
    } else if d == 5 {
        '5'
    } else if d == 6 {
        '6'
    } else if d == 7 {
        '7'
    } else if d == 8 {
        '8'
    } else {
        '9'
    }
}

/// `n` written in decimal, without leading zeros.
pub open spec fn spec_dec_u8(n: u8) -> Seq<char> {
    if n < 10 {
        seq![digit_char(n as int)]
    } else if n < 100 {
        seq![digit_char(n as int / 10), digit_char(n as int % 10)]
    } else {
        seq![
            digit_char(n as int / 100),
            digit_char((n as int / 10) % 10),
            digit_char(n as int % 10),
        ]
    }
}

fn digit_str(d: u8) -> (r: &'static str)
    requires
        d < 10,
    ensures
        r@ =~= seq![digit_char(d as int)],
{
    proof {
        reveal_strlit("0");
        reveal_strlit("1");
        reveal_strlit("2");
        reveal_strlit("3");
        reveal_strlit("4");
        reveal_strlit("5");
        reveal_strlit("6");
        reveal_strlit("7");
        reveal_strlit("8");
        reveal_strlit("9");
    }
    match d {
        0 => "0",
        1 => "1",
        2 => "2",
        3 => "3",
        4 => "4",
        5 => "5",
        6 => "6",
        7 => "7",
        8 => "8",
        _ => "9",
    }
}

/// Append `n` in decimal to `buf`.
pub fn push_dec_u8(buf: &mut String, n: u8)
    ensures
        final(buf)@ == old(buf)@ + spec_dec_u8(n),
{
    if n < 10 {
        buf.append(digit_str(n));
    } else if n < 100 {
        buf.append(digit_str(n / 10));
        buf.append(digit_str(n % 10));
        proof {
            assert(old(buf)@ + seq![digit_char(n as int / 10)] + seq![digit_char(n as int % 10)]
                =~= old(buf)@ + spec_dec_u8(n));
        }
    } else {
        buf.append(digit_str(n / 100));
        buf.append(digit_str((n / 10) % 10));
        buf.append(digit_str(n % 10));
        proof {
            assert(old(buf)@ + seq![digit_char(n as int / 100)] + seq![digit_char(
                (n as int / 10) % 10,
            )] + seq![digit_char(n as int % 10)] =~= old(buf)@ + spec_dec_u8(n));
        }
    }
}

/// The number of newline characters in `s`.
pub open spec fn nl_count(s: Seq<char>) -> int
    decreases s.len(),
{
    if s.len() == 0 {
        0int
    } else {
        nl_count(s.drop_last()) + if s.last() == '\n' {
            1int
        } else {
            0int
        }
    }
}

pub proof fn lemma_nl_count_add(a: Seq<char>, b: Seq<char>)
    ensures
        nl_count(a + b) == nl_count(a) + nl_count(b),
    decreases b.len(),
{
    if b.len() == 0 {
        assert(a + b =~= a);
    } else {
        lemma_nl_count_add(a, b.drop_last());
        assert((a + b).drop_last() =~= a + b.drop_last());
        assert((a + b).last() == b.last());
    }
}

pub proof fn lemma_nl_count_none(s: Seq<char>)
    requires
        forall|j: int| 0 <= j < s.len() ==> s[j] != '\n',
    ensures
        nl_count(s) == 0,
    decreases s.len(),
{
    if s.len() > 0 {
        lemma_nl_count_none(s.drop_last());
    }
}

/// `s` holds no newline character.
pub open spec fn no_nl(s: Seq<char>) -> bool {
    forall|j: int| 0 <= j < s.len() ==> s[j] != '\n'
}

pub proof fn lemma_nl_count_newline()
    ensures
        nl_count("\n"@) == 1,
{
    reveal_strlit("\n");
    assert("\n"@.drop_last() =~= Seq::<char>::empty());
    assert(nl_count(Seq::<char>::empty()) == 0);
    assert("\n"@.last() == '\n');
}

/// Sequences with pointwise equal newline counts concatenate to equal
/// newline counts.
pub proof fn lemma_nl_concat_pointwise(a: Seq<Seq<char>>, b: Seq<Seq<char>>)
    requires
        a.len() == b.len(),
        forall|i: int| 0 <= i < a.len() ==> nl_count(a[i]) == nl_count(b[i]),
    ensures
        nl_count(concat_all(a)) == nl_count(concat_all(b)),
    decreases a.len(),
{
    if a.len() > 0 {
        assert(forall|i: int|
            0 <= i < a.drop_last().len() ==> nl_count(a.drop_last()[i]) == nl_count(
                b.drop_last()[i],
            ));
        lemma_nl_concat_pointwise(a.drop_last(), b.drop_last());
        lemma_nl_count_add(concat_all(a.drop_last()), a.last());
        lemma_nl_count_add(concat_all(b.drop_last()), b.last());
        assert(nl_count(a.last()) == nl_count(b[a.len() - 1]));
    }
}

/// Joining `k` newline-free lines yields `k - 1` newlines (none for an
/// empty sequence).
pub proof fn lemma_join_nl(ls: Seq<Seq<char>>)
    requires
        forall|k: int| 0 <= k < ls.len() ==> no_nl(#[trigger] ls[k]),
    ensures
        nl_count(spec_join(ls)) == if ls.len() == 0 {
            0int
        } else {
            ls.len() - 1
        },
    decreases ls.len(),
{
    if ls.len() == 1 {
        assert(no_nl(ls[0]));
        lemma_nl_count_none(ls[0]);
    } else if ls.len() > 1 {
        assert(forall|k: int|
            0 <= k < ls.drop_last().len() ==> no_nl(#[trigger] ls.drop_last()[k]));
        lemma_join_nl(ls.drop_last());
        lemma_nl_count_add(spec_join(ls.drop_last()), "\n"@);
        lemma_nl_count_add(spec_join(ls.drop_last()) + "\n"@, ls.last());
        lemma_nl_count_newline();
        assert(no_nl(ls[ls.len() - 1]));
        lemma_nl_count_none(ls.last());
    }
}

/// Joining at least one nonempty line is nonempty.
pub proof fn lemma_join_nonempty(ls: Seq<Seq<char>>)
    requires
        ls.len() >= 1,
        forall|k: int| 0 <= k < ls.len() ==> (#[trigger] ls[k]).len() > 0,
    ensures
        spec_join(ls).len() > 0,
    decreases ls.len(),
{
    if ls.len() == 1 {
        assert(ls[0].len() > 0);
    } else {
        assert(ls[ls.len() - 1].len() > 0);
    }
}

} // verus!
