use vstd::prelude::*;
use crate::text::{chars_of, views};

verus! {

/// Whether `c` has the Unicode `White_Space` property.
pub uninterp spec fn white_space(c: char) -> bool;

/// Relies on `char::is_whitespace`: whether the character has the Unicode
/// `White_Space` property, which depends on the character alone.
#[verifier::external_body]
fn is_white_space(c: char) -> (r: bool)
    ensures
        r == white_space(c),
{
    c.is_whitespace()
}

pub open spec fn is_digit(c: char) -> bool {
    '0' <= c && c <= '9'
}

/// The number that a string of decimal digits writes.
pub open spec fn digits_value(s: Seq<char>) -> int
    decreases s.len(),
{
    if s.len() == 0 {
        0
    } else {
        digits_value(s.drop_last()) * 10 + (s.last() as int - '0' as int)
    }
}

/// The digits of a decimal text, after an optional leading `+`.
pub open spec fn unsigned_digits(s: Seq<char>) -> Seq<char> {
    if s.len() > 0 && s[0] == '+' {
        s.drop_first()
    } else {
        s
    }
}

/// The `u32` that `s` writes in decimal: an optional `+`, then one or more
/// digits whose value fits in 32 bits; `None` for any other text.
pub open spec fn decimal_u32(s: Seq<char>) -> Option<u32> {
    let d = unsigned_digits(s);
    if d.len() > 0 && (forall|i: int| 0 <= i < d.len() ==> is_digit(#[trigger] d[i]))
        && digits_value(d) <= u32::MAX {
        Some(digits_value(d) as u32)
    } else {
        None
    }
}

proof fn lemma_digits_value_grows(s: Seq<char>, j: int)
    requires
        0 <= j <= s.len(),
        forall|i: int| 0 <= i < s.len() ==> is_digit(#[trigger] s[i]),
    ensures
        0 <= digits_value(s.take(j)) <= digits_value(s),
    decreases s.len(),
{
    if s.len() > 0 {
        if j == s.len() {
            assert(s.take(j) == s);
            lemma_digits_value_grows(s.drop_last(), j - 1);
        } else {
            assert(s.drop_last().take(j) == s.take(j));
            lemma_digits_value_grows(s.drop_last(), j);
        }
    }
}

/// Reads a `u32` written in decimal, as `decimal_u32` says.
pub fn parse_u32(s: &Vec<char>) -> (r: Option<u32>)
    ensures
        r == decimal_u32(s@),
{
    let start: usize = if s.len() > 0 && s[0] == '+' { 1 } else { 0 };
    let ghost d = unsigned_digits(s@);
    assert(d == s@.subrange(start as int, s@.len() as int));
    if start >= s.len() {
        return None;
    }
    let mut value: u64 = 0;
    let mut k: usize = start;
    while k < s.len()
        invariant
            start <= k <= s.len(),
            d == s@.subrange(start as int, s@.len() as int),
            d == unsigned_digits(s@),
            forall|i: int| 0 <= i < k - start ==> is_digit(#[trigger] d[i]),
            value as int == digits_value(d.take(k - start)),
            value <= u32::MAX,
        decreases s.len() - k,
    {
        let c = s[k];
        if !('0' <= c && c <= '9') {
            proof {
                let m: int = k - start;
                assert(d[m] == c);
                assert(!(forall|i: int| 0 <= i < d.len() ==> is_digit(#[trigger] d[i])));
            }
            return None;
        }
        let ghost n = k - start;
        assert(d.take(n + 1).drop_last() == d.take(n));
        assert(d.take(n + 1).last() == c);
        value = value * 10 + (c as u64 - '0' as u64);
        k = k + 1;
        assert(value as int == digits_value(d.take(n + 1)));
        if value > u32::MAX as u64 {
            proof {
                if forall|i: int| 0 <= i < d.len() ==> is_digit(#[trigger] d[i]) {
                    lemma_digits_value_grows(d, n + 1);
                }
            }
            return None;
        }
    }
    assert(d.take(d.len() as int) == d);
    Some(value as u32)
}

/// The runs of characters of `s` that hold no white space, in order.
pub open spec fn tokens(s: Seq<char>) -> Seq<Seq<char>>
    decreases s.len(),
{
    if s.len() == 0 {
        Seq::empty()
    } else {
        let t = tokens(s.drop_last());
        let c = s.last();
        if white_space(c) {
            t
        } else if s.len() >= 2 && !white_space(s[s.len() - 2]) {
            t.update(t.len() - 1, t.last().push(c))
        } else {
            t.push(seq![c])
        }
    }
}

proof fn lemma_tokens_open(s: Seq<char>)
    requires
        s.len() > 0,
        !white_space(s.last()),
    ensures
        tokens(s).len() >= 1,
    decreases s.len(),
{
    if s.len() >= 2 && !white_space(s[s.len() - 2]) {
        lemma_tokens_open(s.drop_last());
    }
}

/// Splits `s` into its white-space separated tokens.
pub fn split_tokens(s: &Vec<char>) -> (r: Vec<Vec<char>>)
    ensures
        views(r@) == tokens(s@),
{
    let mut r: Vec<Vec<char>> = Vec::new();
    let mut in_token = false;
    let mut k: usize = 0;
    assert(s@.take(0) == Seq::<char>::empty());
    while k < s.len()
        invariant
            k <= s.len(),
            views(r@) == tokens(s@.take(k as int)),
            in_token == (k > 0 && !white_space(s@[k - 1])),
        decreases s.len() - k,
    {
        let c = s[k];
        let ghost pre = s@.take(k as int);
        let ghost next = s@.take(k + 1);
        assert(next.drop_last() == pre);
        assert(next.last() == c);
        if is_white_space(c) {
            in_token = false;
        } else if in_token {
            assert(next[next.len() - 2] == s@[k - 1]);
            proof {
                lemma_tokens_open(pre);
            }
            let mut t = r.pop().unwrap();
            t.push(c);
            r.push(t);
            assert(views(r@) == tokens(next));
        } else {
            if k > 0 {
                assert(next[next.len() - 2] == s@[k - 1]);
            }
            let mut t: Vec<char> = Vec::new();
            t.push(c);
            r.push(t);
            assert(t@ == seq![c]);
            assert(views(r@) == tokens(next));
            in_token = true;
        }
        k = k + 1;
    }
    assert(s@.take(s.len() as int) == s@);
    r
}

/// The parent process id that a process's status line gives: its fourth
/// white-space separated token read as a decimal `u32`.
pub open spec fn status_parent(line: Seq<char>) -> Option<u32> {
    let t = tokens(line);
    if t.len() > 3 {
        decimal_u32(t[3])
    } else {
        None
    }
}

/// Reads the parent process id from a process's status line, as
/// `status_parent` says.
pub fn stat_parent_pid(line: &str) -> (r: Option<u32>)
    ensures
        r == status_parent(line@),
{
    let t = split_tokens(&chars_of(line));
    if t.len() > 3 {
        parse_u32(&t[3])
    } else {
        None
    }
}

/// The process id that a directory entry of the process table stands for:
/// `None` unless it is a directory whose name is a decimal `u32`.
pub fn entry_pid(name: &str, is_dir: bool) -> (r: Option<u32>)
    ensures
        r == (if is_dir { decimal_u32(name@) } else { None }),
{
    if is_dir {
        parse_u32(&chars_of(name))
    } else {
        None
    }
}

} // verus!
