use vstd::prelude::*;
use crate::text::{chars_of, push_char};

verus! {

/// A character that a shell word may hold without quoting.
pub open spec fn is_bare(c: char) -> bool {
    ('a' <= c && c <= 'z') || ('A' <= c && c <= 'Z') || ('0' <= c && c <= '9')
        || c == '+' || c == '-' || c == '_' || c == '/' || c == '.' || c == '='
}

fn bare_char(c: char) -> (r: bool)
    ensures
        r == is_bare(c),
{
    ('a' <= c && c <= 'z') || ('A' <= c && c <= 'Z') || ('0' <= c && c <= '9')
        || c == '+' || c == '-' || c == '_' || c == '/' || c == '.' || c == '='
}

/// A character that must be preceded by a backslash inside double quotes.
pub open spec fn needs_escape(c: char) -> bool {
    c == '$' || c == '`' || c == '\\' || c == '!' || c == '"'
}

/// The text that stands for `c` inside double quotes.
pub open spec fn escape_char(c: char) -> Seq<char> {
    if needs_escape(c) {
        seq!['\\', c]
    } else {
        seq![c]
    }
}

/// `s` with each character escaped for use inside double quotes.
pub open spec fn escaped(s: Seq<char>) -> Seq<char>
    decreases s.len(),
{
    if s.len() == 0 {
        Seq::empty()
    } else {
        escaped(s.drop_last()) + escape_char(s.last())
    }
}

/// `s` as one shell word: unchanged when every character is bare, else in
/// single quotes when it holds no single quote, else in double quotes with
/// `$`, backquote, backslash, `!` and `"` escaped.
pub open spec fn shell_word(s: Seq<char>) -> Seq<char> {
    if forall|i: int| 0 <= i < s.len() ==> is_bare(#[trigger] s[i]) {
        s
    } else if !s.contains('\'') {
        seq!['\''] + s + seq!['\'']
    } else {
        seq!['"'] + escaped(s) + seq!['"']
    }
}

/// Quotes a word for a POSIX shell, as `shell_word` says.
pub fn quote_chars(s: &Vec<char>) -> (r: String)
    ensures
        r@ == shell_word(s@),
{
    let mut all_bare = true;
    let mut has_single = false;
    let mut i: usize = 0;
    while i < s.len()
        invariant
            i <= s.len(),
            all_bare == (forall|j: int| 0 <= j < i ==> is_bare(#[trigger] s@[j])),
            has_single == (exists|j: int| 0 <= j < i && s@[j] == '\''),
        decreases s.len() - i,
    {
        if !bare_char(s[i]) {
            all_bare = false;
        }
        if s[i] == '\'' {
            has_single = true;
        }
        i = i + 1;
    }
    assert(has_single == s@.contains('\''));
    assert(s@.take(s.len() as int) == s@);
    let mut r = String::new();
    if all_bare {
        let mut k: usize = 0;
        while k < s.len()
            invariant
                k <= s.len(),
                r@ == s@.take(k as int),
            decreases s.len() - k,
        {
            push_char(&mut r, s[k]);
            assert(s@.take(k + 1) == s@.take(k as int).push(s@[k as int]));
            k = k + 1;
        }
    } else if !has_single {
        push_char(&mut r, '\'');
        let mut k: usize = 0;
        while k < s.len()
            invariant
                k <= s.len(),
                r@ == seq!['\''] + s@.take(k as int),
            decreases s.len() - k,
        {
            push_char(&mut r, s[k]);
            assert(s@.take(k + 1) == s@.take(k as int).push(s@[k as int]));
            k = k + 1;
        }
        push_char(&mut r, '\'');
    } else {
        push_char(&mut r, '"');
        let mut k: usize = 0;
        while k < s.len()
            invariant
                k <= s.len(),
                r@ == seq!['"'] + escaped(s@.take(k as int)),
            decreases s.len() - k,
        {
            let c = s[k];
            if c == '$' || c == '`' || c == '\\' || c == '!' || c == '"' {
                push_char(&mut r, '\\');
            }
            push_char(&mut r, c);
            assert(s@.take(k + 1).drop_last() == s@.take(k as int));
            k = k + 1;
        }
        push_char(&mut r, '"');
    }
    r
}

/// Quotes `s` for a POSIX shell: see `shell_word`.
pub fn bash_quote(s: &str) -> (r: String)
    ensures
        r@ == shell_word(s@),
{
    quote_chars(&chars_of(s))
}

} // verus!
