use vstd::prelude::*;
use vstd::string::*;
use crate::quote::{quote_chars, shell_word};
use crate::text::{chars_of, push_char, views};

verus! {

/// The pieces of `s` between occurrences of `sep`: one more piece than
/// there are separators, empty pieces included.
pub open spec fn fields(s: Seq<char>, sep: char) -> Seq<Seq<char>>
    decreases s.len(),
{
    if s.len() == 0 {
        seq![Seq::empty()]
    } else {
        let f = fields(s.drop_last(), sep);
        if s.last() == sep {
            f.push(Seq::empty())
        } else {
            f.update(f.len() - 1, f.last().push(s.last()))
        }
    }
}

/// The pieces of `s` where `sep` ends each piece: the fields, less a last
/// one that is empty.
pub open spec fn terminated_fields(s: Seq<char>, sep: char) -> Seq<Seq<char>> {
    let f = fields(s, sep);
    if f.last().len() == 0 {
        f.drop_last()
    } else {
        f
    }
}

/// The words joined with one space between each two.
pub open spec fn join_words(ws: Seq<Seq<char>>) -> Seq<char>
    decreases ws.len(),
{
    if ws.len() == 0 {
        Seq::empty()
    } else if ws.len() == 1 {
        ws[0]
    } else {
        join_words(ws.drop_last()) + seq![' '] + ws.last()
    }
}

/// How a NUL-terminated argument list is shown: each argument quoted as a
/// shell word, the words joined by spaces.
pub open spec fn command_line_text(raw: Seq<char>) -> Seq<char> {
    join_words(terminated_fields(raw, '\0').map_values(|w: Seq<char>| shell_word(w)))
}

proof fn lemma_fields_nonempty(s: Seq<char>, sep: char)
    ensures
        fields(s, sep).len() >= 1,
    decreases s.len(),
{
    if s.len() > 0 {
        lemma_fields_nonempty(s.drop_last(), sep);
    }
}

/// Splits `s` at every `sep`, as `fields` says.
pub fn split_fields(s: &Vec<char>, sep: char) -> (r: Vec<Vec<char>>)
    ensures
        views(r@) == fields(s@, sep),
{
    let mut done: Vec<Vec<char>> = Vec::new();
    let mut cur: Vec<char> = Vec::new();
    let mut k: usize = 0;
    assert(s@.take(0) == Seq::<char>::empty());
    assert(views(done@).push(cur@) == fields(Seq::<char>::empty(), sep));
    while k < s.len()
        invariant
            k <= s.len(),
            views(done@).push(cur@) == fields(s@.take(k as int), sep),
        decreases s.len() - k,
    {
        let c = s[k];
        let ghost before = s@.take(k as int);
        assert(s@.take(k + 1).drop_last() == before);
        assert(s@.take(k + 1).last() == c);
        if c == sep {
            let old_cur = cur;
            cur = Vec::new();
            done.push(old_cur);
            assert(views(done@).push(cur@) == fields(s@.take(k + 1), sep));
        } else {
            cur.push(c);
            assert(views(done@).push(cur@) == fields(s@.take(k + 1), sep));
        }
        k = k + 1;
    }
    assert(s@.take(s.len() as int) == s@);
    done.push(cur);
    assert(views(done@) == fields(s@, sep));
    done
}

/// Shows a NUL-terminated argument list as one line of shell words.
pub fn command_line_display(raw: &str) -> (r: String)
    ensures
        r@ == command_line_text(raw@),
{
    let chars = chars_of(raw);
    let mut pieces = split_fields(&chars, '\0');
    proof {
        lemma_fields_nonempty(raw@, '\0');
    }
    if pieces[pieces.len() - 1].len() == 0 {
        pieces.pop();
        assert(views(pieces@) == fields(raw@, '\0').drop_last());
    }
    let ghost words = terminated_fields(raw@, '\0').map_values(|w: Seq<char>| shell_word(w));
    assert(views(pieces@) == terminated_fields(raw@, '\0'));
    let mut r = String::new();
    let mut i: usize = 0;
    while i < pieces.len()
        invariant
            i <= pieces.len(),
            views(pieces@) == terminated_fields(raw@, '\0'),
            words == terminated_fields(raw@, '\0').map_values(|w: Seq<char>| shell_word(w)),
            r@ == join_words(words.take(i as int)),
        decreases pieces.len() - i,
    {
        let q = quote_chars(&pieces[i]);
        assert(q@ == words[i as int]);
        assert(words.take(i + 1).drop_last() == words.take(i as int));
        if i > 0 {
            push_char(&mut r, ' ');
        }
        r.append(q.as_str());
        i = i + 1;
    }
    assert(words.take(pieces.len() as int) == words);
    r
}

} // verus!
