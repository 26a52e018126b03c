//! Turning camel-case element names into spaced, capitalised labels.

use vstd::prelude::*;

use crate::text::{join, push_char};

verus! {

/// Whether `c` has the Unicode `Uppercase` property.
pub uninterp spec fn upper_case_char(c: char) -> bool;

/// Whether `c` has the Unicode `Lowercase` property.
pub uninterp spec fn lower_case_char(c: char) -> bool;

/// Whether `c` has the Unicode `White_Space` property.
pub uninterp spec fn white_space_char(c: char) -> bool;

/// The upper-case mapping of `c`, one or more characters.
pub uninterp spec fn upper_mapping(c: char) -> Seq<char>;

/// Relies on `char::is_uppercase`: the Unicode `Uppercase` property of `c`.
#[verifier::external_body]
fn is_upper(c: char) -> (r: bool)
    ensures
        r == upper_case_char(c),
{
    c.is_uppercase()
}

/// Relies on `char::is_lowercase`: the Unicode `Lowercase` property of `c`.
#[verifier::external_body]
fn is_lower(c: char) -> (r: bool)
    ensures
        r == lower_case_char(c),
{
    c.is_lowercase()
}

/// Relies on `char::is_whitespace`: the Unicode `White_Space` property of `c`.
#[verifier::external_body]
fn is_white(c: char) -> (r: bool)
    ensures
        r == white_space_char(c),
{
    c.is_whitespace()
}

/// Relies on `char::to_uppercase`: the characters of the upper-case mapping
/// of `c`, collected into a string.
#[verifier::external_body]
fn upper(c: char) -> (r: String)
    ensures
        r@ == upper_mapping(c),
{
    c.to_uppercase().collect()
}

/// A word starts at position `i` of `s`: an upper-case letter that follows a
/// lower-case letter. This is the one splitting rule used for every label.
pub open spec fn word_break(s: Seq<char>, i: int) -> bool {
    0 < i < s.len() && upper_case_char(s[i]) && lower_case_char(s[i - 1])
}

/// `s` with a space inserted before each word start.
pub open spec fn spaced(s: Seq<char>) -> Seq<char>
    decreases s.len(),
{
    if s.len() == 0 {
        s
    } else if word_break(s, s.len() - 1) {
        spaced(s.drop_last()) + seq![' ', s.last()]
    } else {
        spaced(s.drop_last()).push(s.last())
    }
}

/// Scanning `t` from the left: the words completed so far and the word
/// being read. Words are the maximal runs of non-white-space characters.
pub open spec fn scan_words(t: Seq<char>) -> (Seq<Seq<char>>, Seq<char>)
    decreases t.len(),
{
    if t.len() == 0 {
        (Seq::empty(), Seq::empty())
    } else {
        let (done, cur) = scan_words(t.drop_last());
        if white_space_char(t.last()) {
            if cur.len() > 0 {
                (done.push(cur), Seq::empty())
            } else {
                (done, cur)
            }
        } else {
            (done, cur.push(t.last()))
        }
    }
}

/// The white-space separated words of `t`, in order, none empty.
pub open spec fn words(t: Seq<char>) -> Seq<Seq<char>> {
    let (done, cur) = scan_words(t);
    if cur.len() > 0 {
        done.push(cur)
    } else {
        done
    }
}

/// `w` with its first character replaced by its upper-case mapping.
pub open spec fn capitalized(w: Seq<char>) -> Seq<char> {
    if w.len() == 0 {
        w
    } else {
        upper_mapping(w[0]) + w.skip(1)
    }
}

/// The label of a camel-case name: split into words, each capitalised,
/// joined by single spaces.
pub open spec fn title_case(s: Seq<char>) -> Seq<char> {
    join(words(spaced(s)).map_values(|w: Seq<char>| capitalized(w)), seq![' '])
}

fn spaced_chars(s: &str) -> (v: Vec<char>)
    ensures
        v@ == spaced(s@),
{
    let n = s.unicode_len();
    let mut v: Vec<char> = Vec::new();
    let mut prev_lower = false;
    let mut i: usize = 0;
    while i < n
        invariant
            n == s@.len(),
            i <= n,
            v@ == spaced(s@.take(i as int)),
            i > 0 ==> prev_lower == lower_case_char(s@[i - 1]),
        decreases n - i,
    {
        let c = s.get_char(i);
        let t = Ghost(s@.take(i + 1));
        assert(t@.drop_last() =~= s@.take(i as int));
        assert(t@.last() == c);
        assert(i > 0 ==> t@[i - 1] == s@[i - 1]);
        if i > 0 && prev_lower && is_upper(c) {
            v.push(' ');
        }
        v.push(c);
        prev_lower = is_lower(c);
        i = i + 1;
        assert(v@ =~= spaced(t@));
    }
    assert(s@.take(n as int) =~= s@);
    v
}

fn push_capitalized(out: &mut String, w: &Vec<char>)
    requires
        w@.len() > 0,
    ensures
        final(out)@ == old(out)@ + capitalized(w@),
{
    let ghost start = out@;
    let first = upper(w[0]);
    out.append(first.as_str());
    let mut i: usize = 1;
    while i < w.len()
        invariant
            1 <= i <= w@.len(),
            out@ == start + upper_mapping(w@[0]) + w@.subrange(1, i as int),
        decreases w@.len() - i,
    {
        push_char(out, w[i]);
        i = i + 1;
        assert(out@ =~= start + upper_mapping(w@[0]) + w@.subrange(1, i as int));
    }
    assert(w@.subrange(1, w@.len() as int) =~= w@.skip(1));
}

proof fn lemma_join_push(ws: Seq<Seq<char>>, w: Seq<char>)
    ensures
        join(ws.push(w).map_values(|x: Seq<char>| capitalized(x)), seq![' ']) == if ws.len() == 0 {
            capitalized(w)
        } else {
            join(ws.map_values(|x: Seq<char>| capitalized(x)), seq![' ']) + seq![' '] + capitalized(
                w,
            )
        },
{
    let m = ws.push(w).map_values(|x: Seq<char>| capitalized(x));
    assert(m.drop_last() =~= ws.map_values(|x: Seq<char>| capitalized(x)));
    assert(m.last() == capitalized(w));
}

/// Turns a camel-case name into a label of capitalised words: a space goes
/// before every upper-case letter that follows a lower-case letter, the
/// result is split at white space, and each word gets an upper-case first
/// letter.
pub fn camel_to_spaced_pascal(s: &str) -> (r: String)
    ensures
        r@ == title_case(s@),
{
    let t = spaced_chars(s);
    let mut result = String::new();
    let mut cur: Vec<char> = Vec::new();
    let mut count: usize = 0;
    let mut i: usize = 0;
    while i < t.len()
        invariant
            i <= t@.len(),
            t@ == spaced(s@),
            cur@ == scan_words(t@.take(i as int)).1,
            count == scan_words(t@.take(i as int)).0.len(),
            count <= i,
            result@ == join(
                scan_words(t@.take(i as int)).0.map_values(|x: Seq<char>| capitalized(x)),
                seq![' '],
            ),
        decreases t@.len() - i,
    {
        let c = t[i];
        let ghost pre = t@.take(i as int);
        let ghost (done, word) = scan_words(pre);
        assert(t@.take(i + 1).drop_last() =~= pre);
        assert(t@.take(i + 1).last() == c);
        if is_white(c) {
            if cur.len() > 0 {
                proof {
                    lemma_join_push(done, word);
                }
                if count > 0 {
                    push_char(&mut result, ' ');
                }
                push_capitalized(&mut result, &cur);
                cur = Vec::new();
                count = count + 1;
            }
        } else {
            cur.push(c);
        }
        i = i + 1;
    }
    assert(t@.take(t@.len() as int) =~= t@);
    if cur.len() > 0 {
        proof {
            lemma_join_push(scan_words(t@).0, scan_words(t@).1);
        }
        if count > 0 {
            push_char(&mut result, ' ');
        }
        push_capitalized(&mut result, &cur);
    }
    result
}

} // verus!
