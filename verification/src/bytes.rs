//! Byte-level text helpers for the supervisor: splitting process output
//! into lines, trimming, decimal parsing and rendering, substring search
//! and token extraction.
//!
//! The process enumeration tools the supervisor relies on answer over
//! line-oriented byte streams, so everything here works on bytes.

use vstd::prelude::*;

verus! {

/// Blank bytes that line trimming and token splitting ignore.
pub open spec fn is_blank(b: u8) -> bool {
    b == 32 || b == 9 || b == 13 || b == 10
}

/// Decimal digit bytes.
pub open spec fn is_digit(b: u8) -> bool {
    48 <= b <= 57
}

/// The numeric value of a sequence of decimal digit bytes, most
/// significant first.
pub open spec fn digits_val(s: Seq<u8>) -> nat
    decreases s.len(),
{
    if s.len() == 0 {
        0
    } else {
        (digits_val(s.drop_last()) * 10 + (s.last() - 48)) as nat
    }
}

/// The decimal digit bytes of `n`, most significant first, no leading
/// zeros (a single zero for zero).
pub open spec fn dec_digits(n: nat) -> Seq<u8>
    decreases n,
{
    if n < 10 {
        seq![(48 + n) as u8]
    } else {
        dec_digits(n / 10).push((48 + n % 10) as u8)
    }
}

/// Renders `n` as decimal digit bytes.
pub fn u16_to_dec(n: u16) -> (digits: Vec<u8>)
    ensures
        digits@ == dec_digits(n as nat),
    decreases n,
{
    if n < 10 {
        let mut out: Vec<u8> = Vec::new();
        out.push(48 + (n as u8));
        assert(out@ =~= dec_digits(n as nat));
        out
    } else {
        let mut out = u16_to_dec(n / 10);
        out.push(48 + ((n % 10) as u8));
        assert(out@ =~= dec_digits(n as nat));
        out
    }
}

/// `s` with blank bytes removed from the end.
pub open spec fn trim_back(s: Seq<u8>) -> Seq<u8>
    decreases s.len(),
{
    if s.len() > 0 && is_blank(s.last()) {
        trim_back(s.drop_last())
    } else {
        s
    }
}

/// `s` with blank bytes removed from the front.
pub open spec fn trim_front(s: Seq<u8>) -> Seq<u8>
    decreases s.len(),
{
    if s.len() > 0 && is_blank(s.first()) {
        trim_front(s.drop_first())
    } else {
        s
    }
}

/// `s` with blank bytes removed from both ends.
pub open spec fn trimmed(s: Seq<u8>) -> Seq<u8> {
    trim_front(trim_back(s))
}

/// A process id parsed from one line of tool output: the line is trimmed,
/// and accepted exactly when what remains is one or more decimal digits
/// whose value fits the platform's signed process id type.
pub open spec fn parse_pid_spec(line: Seq<u8>) -> Option<i32> {
    let t = trimmed(line);
    if t.len() > 0 && (forall|i: int| 0 <= i < t.len() ==> is_digit(t[i])) && digits_val(t)
        <= i32::MAX {
        Some(digits_val(t) as i32)
    } else {
        None
    }
}

/// A digit appended to a digit string multiplies its value by ten, so the
/// value of a longer digit string never falls below that of its prefix.
proof fn lemma_digits_val_prefix_le(s: Seq<u8>, i: int, j: int)
    requires
        0 <= i <= j <= s.len(),
        forall|k: int| i <= k < j ==> is_digit(s[k]),
    ensures
        digits_val(s.subrange(0, i)) <= digits_val(s.subrange(0, j)),
    decreases j - i,
{
    if i < j {
        lemma_digits_val_prefix_le(s, i, j - 1);
        assert(s.subrange(0, j).drop_last() =~= s.subrange(0, j - 1));
        assert(is_digit(s.subrange(0, j).last()));
    }
}

/// Parses a process id from one line, as `parse_pid_spec` describes.
pub fn parse_pid(line: &[u8]) -> (pid: Option<i32>)
    ensures
        pid == parse_pid_spec(line@),
{
    let ghost s = line@;
    let mut end: usize = line.len();
    assert(s.subrange(0, end as int) =~= s);
    while end > 0 && (line[end - 1] == 32 || line[end - 1] == 9 || line[end - 1] == 13 || line[end
        - 1] == 10)
        invariant
            0 <= end <= s.len(),
            line@ == s,
            trim_back(s) == trim_back(s.subrange(0, end as int)),
        decreases end,
    {
        assert(s.subrange(0, end as int).drop_last() =~= s.subrange(0, end as int - 1));
        end = end - 1;
    }
    assert(trim_back(s) == s.subrange(0, end as int));
    let mut start: usize = 0;
    while start < end && (line[start] == 32 || line[start] == 9 || line[start] == 13 || line[start]
        == 10)
        invariant
            0 <= start <= end <= s.len(),
            line@ == s,
            trim_back(s) == s.subrange(0, end as int),
            trim_front(s.subrange(0, end as int)) == trim_front(s.subrange(start as int, end as int)),
        decreases end - start,
    {
        assert(s.subrange(start as int, end as int).drop_first() =~= s.subrange(
            start as int + 1,
            end as int,
        ));
        start = start + 1;
    }
    assert(trimmed(s) == s.subrange(start as int, end as int));
    let ghost t = s.subrange(start as int, end as int);
    if start == end {
        assert(t.len() == 0);
        return None;
    }
    let mut val: u64 = 0;
    let mut i: usize = start;
    while i < end
        invariant
            start <= i <= end <= s.len(),
            line@ == s,
            t == s.subrange(start as int, end as int),
            trimmed(s) == t,
            t.len() > 0,
            forall|k: int| 0 <= k < i - start ==> is_digit(t[k]),
            val == digits_val(t.subrange(0, i - start)),
            val <= i32::MAX,
        decreases end - i,
    {
        let b = line[i];
        if b < 48 || b > 57 {
            assert(!is_digit(t[i - start]));
            return None;
        }
        assert(t.subrange(0, i - start + 1).drop_last() =~= t.subrange(0, i - start));
        val = val * 10 + ((b - 48) as u64);
        i = i + 1;
        if val > 0x7fff_ffff {
            proof {
                if forall|k: int| 0 <= k < t.len() ==> is_digit(t[k]) {
                    lemma_digits_val_prefix_le(t, i - start, t.len() as int);
                    assert(t.subrange(0, t.len() as int) =~= t);
                }
            }
            return None;
        }
    }
    assert(t.subrange(0, t.len() as int) =~= t);
    Some(val as i32)
}

/// The lines of a byte stream, split on the line feed byte.  A trailing
/// line feed opens no further line; an empty stream has no lines.
pub open spec fn split_lines(s: Seq<u8>) -> Seq<Seq<u8>>
    decreases s.len(),
{
    if s.len() == 0 {
        Seq::empty()
    } else if s.first() == 10 {
        seq![Seq::<u8>::empty()] + split_lines(s.drop_first())
    } else {
        let rest = split_lines(s.drop_first());
        if rest.len() == 0 {
            seq![s]
        } else {
            seq![seq![s.first()] + rest.first()] + rest.drop_first()
        }
    }
}

/// The views of a vector of owned lines.
pub open spec fn line_views(lines: Seq<Vec<u8>>) -> Seq<Seq<u8>> {
    lines.map_values(|l: Vec<u8>| l@)
}

/// Splitting a stream that starts with one line-feed-free line yields that
/// line, then the lines of the remainder.
proof fn lemma_split_head_line(cur: Seq<u8>, rest: Seq<u8>)
    requires
        forall|k: int| 0 <= k < cur.len() ==> cur[k] != 10,
    ensures
        split_lines(cur + seq![10u8] + rest) == seq![cur] + split_lines(rest),
    decreases cur.len(),
{
    let whole = cur + seq![10u8] + rest;
    if cur.len() == 0 {
        assert(cur =~= Seq::<u8>::empty());
        assert(whole =~= seq![10u8] + rest);
        assert(whole.drop_first() =~= rest);
        assert(split_lines(whole) =~= seq![cur] + split_lines(rest));
    } else {
        lemma_split_head_line(cur.drop_first(), rest);
        assert(whole.drop_first() =~= cur.drop_first() + seq![10u8] + rest);
        let tail_split = split_lines(whole.drop_first());
        assert(tail_split == seq![cur.drop_first()] + split_lines(rest));
        assert(tail_split.len() > 0);
        assert(whole.first() != 10);
        assert(split_lines(whole) == seq![seq![whole.first()] + tail_split.first()]
            + tail_split.drop_first());
        assert(seq![whole.first()] + tail_split.first() =~= cur);
        assert(tail_split.drop_first() =~= split_lines(rest));
        assert(split_lines(whole) =~= seq![cur] + split_lines(rest));
    }
}

/// A stream without a line feed is one line, or none when it is empty.
proof fn lemma_split_no_break(cur: Seq<u8>)
    requires
        forall|k: int| 0 <= k < cur.len() ==> cur[k] != 10,
    ensures
        cur.len() == 0 ==> split_lines(cur) == Seq::<Seq<u8>>::empty(),
        cur.len() > 0 ==> split_lines(cur) == seq![cur],
    decreases cur.len(),
{
    if cur.len() > 0 {
        lemma_split_no_break(cur.drop_first());
        if cur.len() > 1 {
            assert(split_lines(cur.drop_first()) == seq![cur.drop_first()]);
            assert(seq![cur.first()] + cur.drop_first() =~= cur);
            assert(split_lines(cur) =~= seq![cur]);
        }
    }
}

/// Splits a byte stream into its lines, as `split_lines` describes.
pub fn split_lines_vec(bytes: &[u8]) -> (lines: Vec<Vec<u8>>)
    ensures
        line_views(lines@) == split_lines(bytes@),
{
    let ghost s = bytes@;
    let mut lines: Vec<Vec<u8>> = Vec::new();
    let mut cur: Vec<u8> = Vec::new();
    let mut i: usize = 0;
    assert(cur@ + s.skip(0) =~= s);
    assert(line_views(lines@) + split_lines(s) =~= split_lines(s));
    while i < bytes.len()
        invariant
            0 <= i <= s.len(),
            bytes@ == s,
            forall|k: int| 0 <= k < cur@.len() ==> cur@[k] != 10,
            split_lines(s) == line_views(lines@) + split_lines(cur@ + s.skip(i as int)),
        decreases s.len() - i,
    {
        let b = bytes[i];
        if b == 10 {
            proof {
                lemma_split_head_line(cur@, s.skip(i as int + 1));
                assert(cur@ + seq![10u8] + s.skip(i as int + 1) =~= cur@ + s.skip(i as int));
                assert(line_views(lines@.push(cur)) =~= line_views(lines@).push(cur@));
                assert(line_views(lines@).push(cur@) + split_lines(s.skip(i as int + 1)) =~= line_views(
                    lines@,
                ) + (seq![cur@] + split_lines(s.skip(i as int + 1))));
            }
            lines.push(cur);
            cur = Vec::new();
            assert(cur@ + s.skip(i as int + 1) =~= s.skip(i as int + 1));
        } else {
            proof {
                assert(cur@.push(b) + s.skip(i as int + 1) =~= cur@ + s.skip(i as int));
            }
            cur.push(b);
        }
        i = i + 1;
    }
    assert(cur@ + s.skip(s.len() as int) =~= cur@);
    proof {
        lemma_split_no_break(cur@);
    }
    if cur.len() > 0 {
        proof {
            assert(line_views(lines@.push(cur)) =~= line_views(lines@).push(cur@));
            assert(line_views(lines@) + seq![cur@] =~= line_views(lines@).push(cur@));
        }
        lines.push(cur);
    } else {
        assert(line_views(lines@) + split_lines(cur@) =~= line_views(lines@));
    }
    lines
}

/// Whether `needle` occurs in `hay` starting at position `at`.
pub open spec fn matches_at(hay: Seq<u8>, needle: Seq<u8>, at: int) -> bool {
    0 <= at && at + needle.len() <= hay.len() && hay.subrange(at, at + needle.len()) == needle
}

/// Whether `needle` occurs anywhere in `hay`.
pub open spec fn contains_seq(hay: Seq<u8>, needle: Seq<u8>) -> bool {
    exists|at: int| matches_at(hay, needle, at)
}

/// Substring search, as `contains_seq` describes.
pub fn contains_bytes(hay: &[u8], needle: &[u8]) -> (found: bool)
    ensures
        found == contains_seq(hay@, needle@),
{
    if needle.len() > hay.len() {
        assert(forall|at: int| !matches_at(hay@, needle@, at));
        return false;
    }
    if needle.len() == 0 {
        assert(hay@.subrange(0, 0) =~= needle@);
        assert(matches_at(hay@, needle@, 0));
        return true;
    }
    let hay_len: usize = hay.len();
    let last_start: usize = hay.len() - needle.len();
    let mut at: usize = 0;
    while at <= last_start
        invariant
            0 <= at <= last_start + 1,
            needle@.len() >= 1,
            hay@.len() == hay_len,
            last_start == hay@.len() - needle@.len(),
            forall|k: int| 0 <= k < at ==> !matches_at(hay@, needle@, k),
        decreases last_start + 1 - at,
    {
        let mut j: usize = 0;
        let mut mismatch = false;
        while j < needle.len()
            invariant
                0 <= j <= needle@.len(),
                hay@.len() == hay_len,
                at + needle@.len() <= hay@.len(),
                !mismatch ==> forall|k: int| 0 <= k < j ==> hay@[at + k] == needle@[k],
                mismatch ==> hay@.subrange(at as int, at + needle@.len()) != needle@,
            decreases needle@.len() - j,
        {
            if hay[at + j] != needle[j] {
                proof {
                    assert(hay@.subrange(at as int, at + needle@.len())[j as int] != needle@[j as int]);
                }
                mismatch = true;
                j = needle.len();
            } else {
                j = j + 1;
            }
        }
        if !mismatch {
            proof {
                assert(hay@.subrange(at as int, at + needle@.len()) =~= needle@);
                assert(matches_at(hay@, needle@, at as int));
            }
            return true;
        }
        at = at + 1;
    }
    proof {
        assert(forall|k: int| matches_at(hay@, needle@, k) ==> 0 <= k <= last_start);
        assert(forall|k: int| !matches_at(hay@, needle@, k));
    }
    false
}

/// The bytes of the last blank-separated token of `s`, empty when `s` is
/// blank throughout.
pub open spec fn token_suffix(s: Seq<u8>) -> Seq<u8>
    decreases s.len(),
{
    if s.len() == 0 || is_blank(s.last()) {
        Seq::empty()
    } else {
        token_suffix(s.drop_last()).push(s.last())
    }
}

/// The last blank-separated token of `s`, trailing blanks ignored.
pub open spec fn last_token(s: Seq<u8>) -> Seq<u8>
    decreases s.len(),
{
    if s.len() == 0 {
        Seq::empty()
    } else if is_blank(s.last()) {
        last_token(s.drop_last())
    } else {
        token_suffix(s)
    }
}

/// Extracts the last blank-separated token, as `last_token` describes.
pub fn last_token_vec(line: &[u8]) -> (token: Vec<u8>)
    ensures
        token@ == last_token(line@),
{
    let ghost s = line@;
    let mut end: usize = line.len();
    assert(s.subrange(0, end as int) =~= s);
    while end > 0 && (line[end - 1] == 32 || line[end - 1] == 9 || line[end - 1] == 13 || line[end
        - 1] == 10)
        invariant
            0 <= end <= s.len(),
            line@ == s,
            last_token(s) == last_token(s.subrange(0, end as int)),
        decreases end,
    {
        assert(s.subrange(0, end as int).drop_last() =~= s.subrange(0, end as int - 1));
        end = end - 1;
    }
    let ghost kept = s.subrange(0, end as int);
    assert(end > 0 ==> !is_blank(kept.last()));
    assert(last_token(s) == token_suffix(kept) || (end == 0 && last_token(s) == Seq::<u8>::empty()));
    let mut start: usize = end;
    assert(token_suffix(kept) =~= token_suffix(s.subrange(0, end as int)) + s.subrange(
        end as int,
        end as int,
    ));
    while start > 0 && !(line[start - 1] == 32 || line[start - 1] == 9 || line[start - 1] == 13
        || line[start - 1] == 10)
        invariant
            0 <= start <= end <= s.len(),
            line@ == s,
            kept == s.subrange(0, end as int),
            token_suffix(kept) == token_suffix(s.subrange(0, start as int)) + s.subrange(
                start as int,
                end as int,
            ),
        decreases start,
    {
        assert(s.subrange(0, start as int).drop_last() =~= s.subrange(0, start as int - 1));
        assert(token_suffix(s.subrange(0, start as int - 1)).push(s[start as int - 1]) + s.subrange(
            start as int,
            end as int,
        ) =~= token_suffix(s.subrange(0, start as int - 1)) + s.subrange(start as int - 1, end as int));
        start = start - 1;
    }
    assert(token_suffix(s.subrange(0, start as int)) == Seq::<u8>::empty());
    assert(token_suffix(kept) =~= s.subrange(start as int, end as int));
    let mut token: Vec<u8> = Vec::new();
    let mut i: usize = start;
    while i < end
        invariant
            start <= i <= end <= s.len(),
            line@ == s,
            token@ == s.subrange(start as int, i as int),
        decreases end - i,
    {
        assert(s.subrange(start as int, i as int).push(s[i as int]) =~= s.subrange(
            start as int,
            i as int + 1,
        ));
        token.push(line[i]);
        i = i + 1;
    }
    token
}

} // verus!
