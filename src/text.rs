//! Plain text helpers: counting, slicing and joining character sequences.

use vstd::prelude::*;

verus! {

/// Number of occurrences of `c` in `s`.
pub open spec fn count_char(s: Seq<char>, c: char) -> nat
    decreases s.len(),
{
    if s.len() == 0 {
        0
    } else {
        count_char(s.drop_last(), c) + if s.last() == c {
            1nat
        } else {
            0nat
        }
    }
}

/// Index of the last occurrence of `c` in `s`, or -1 when `c` does not occur.
pub open spec fn last_index_of(s: Seq<char>, c: char) -> int
    decreases s.len(),
{
    if s.len() == 0 {
        -1
    } else if s.last() == c {
        s.len() - 1
    } else {
        last_index_of(s.drop_last(), c)
    }
}

/// The part of `s` after the last occurrence of `c`, if `c` occurs.
pub open spec fn after_last(s: Seq<char>, c: char) -> Option<Seq<char>> {
    let k = last_index_of(s, c);
    if k < 0 {
        None
    } else {
        Some(s.subrange(k + 1, s.len() as int))
    }
}

pub proof fn lemma_last_index_of_bounds(s: Seq<char>, c: char)
    ensures
        -1 <= last_index_of(s, c) < s.len(),
        last_index_of(s, c) >= 0 ==> s[last_index_of(s, c)] == c,
        forall|j: int| last_index_of(s, c) < j < s.len() ==> s[j] != c,
    decreases s.len(),
{
    if s.len() > 0 {
        lemma_last_index_of_bounds(s.drop_last(), c);
        assert(forall|j: int| 0 <= j < s.len() - 1 ==> s.drop_last()[j] == s[j]);
    }
}

/// Counts how many times `c` occurs in `s`.
pub fn count_char_occurrences(s: &String, c: char) -> (r: usize)
    ensures
        r == count_char(s@, c),
{
    let t = s.as_str();
    let n = t.unicode_len();
    let mut count: usize = 0;
    let mut i: usize = 0;
    while i < n
        invariant
            n == t@.len(),
            t@ == s@,
            i <= n,
            count == count_char(t@.take(i as int), c),
            count <= i,
        decreases n - i,
    {
        let ch = t.get_char(i);
        assert(t@.take(i + 1).drop_last() =~= t@.take(i as int));
        if ch == c {
            count = count + 1;
        }
        i = i + 1;
    }
    assert(t@.take(n as int) =~= t@);
    count
}

/// The text after the last occurrence of `c` in `s`, or `None` when `c`
/// does not occur in `s`.
pub fn get_slice_after_last_occurrence(s: &String, c: char) -> (r: Option<String>)
    ensures
        r is Some <==> after_last(s@, c) is Some,
        r matches Some(t) ==> t@ == after_last(s@, c)->0,
{
    let t = s.as_str();
    let n = t.unicode_len();
    let mut found: Option<usize> = None;
    let mut i: usize = 0;
    while i < n
        invariant
            n == t@.len(),
            t@ == s@,
            i <= n,
            match found {
                None => last_index_of(t@.take(i as int), c) == -1,
                Some(k) => last_index_of(t@.take(i as int), c) == k && k < i,
            },
        decreases n - i,
    {
        let ch = t.get_char(i);
        assert(t@.take(i + 1).drop_last() =~= t@.take(i as int));
        if ch == c {
            found = Some(i);
        }
        i = i + 1;
    }
    assert(t@.take(n as int) =~= t@);
    match found {
        None => None,
        Some(k) => Some(String::from_str(t.substring_char(k + 1, n))),
    }
}


/// `parts` joined with `sep` between neighbours.
pub open spec fn join(parts: Seq<Seq<char>>, sep: Seq<char>) -> Seq<char>
    decreases parts.len(),
{
    if parts.len() == 0 {
        Seq::empty()
    } else if parts.len() == 1 {
        parts[0]
    } else {
        join(parts.drop_last(), sep) + sep + parts.last()
    }
}

/// The views of a sequence of strings.
pub open spec fn views(v: Seq<String>) -> Seq<Seq<char>> {
    v.map_values(|t: String| t@)
}

/// Relies on `String::push`: the character is appended at the end.
#[verifier::external_body]
pub(crate) fn push_char(s: &mut String, c: char)
    ensures
        final(s)@ == old(s)@.push(c),
{
    s.push(c);
}

/// Joins the type names with ", " between neighbours.
pub fn reduce_datatypes(datatypes: &[String]) -> (r: String)
    ensures
        r@ == join(views(datatypes@), ", "@),
{
    let mut result = String::new();
    let mut i: usize = 0;
    while i < datatypes.len()
        invariant
            i <= datatypes@.len(),
            result@ == join(views(datatypes@.take(i as int)), ", "@),
        decreases datatypes@.len() - i,
    {
        let ghost before = views(datatypes@.take(i as int));
        let ghost after = views(datatypes@.take(i + 1));
        assert(after.drop_last() =~= before);
        assert(after.last() == datatypes@[i as int]@);
        if i > 0 {
            result.append(", ");
        }
        result.append(datatypes[i].as_str());
        assert(after.len() == 1 ==> after[0] == after.last());
        i = i + 1;
    }
    assert(datatypes@.take(datatypes@.len() as int) =~= datatypes@);
    result
}

/// `s` with every occurrence of the choice marker "[x]" removed, scanning
/// from the left.
pub open spec fn strip_marker(s: Seq<char>) -> Seq<char>
    decreases s.len(),
{
    if s.len() == 0 {
        s
    } else if s.len() >= 3 && s[0] == '[' && s[1] == 'x' && s[2] == ']' {
        strip_marker(s.skip(3))
    } else {
        seq![s[0]] + strip_marker(s.skip(1))
    }
}

/// Removes every "[x]" choice marker from `s`.
pub fn strip_choice_marker(s: &str) -> (r: String)
    ensures
        r@ == strip_marker(s@),
{
    let n = s.unicode_len();
    let mut result = String::new();
    let mut i: usize = 0;
    assert(s@.skip(0) =~= s@);
    assert(result@ + strip_marker(s@) =~= strip_marker(s@));
    while i < n
        invariant
            n == s@.len(),
            i <= n,
            result@ + strip_marker(s@.skip(i as int)) == strip_marker(s@),
        decreases n - i,
    {
        let rest = Ghost(s@.skip(i as int));
        let c = s.get_char(i);
        if n - i >= 3 && c == '[' && s.get_char(i + 1) == 'x' && s.get_char(i + 2) == ']' {
            assert(rest@.skip(3) =~= s@.skip(i + 3));
            i = i + 3;
        } else {
            assert(rest@.skip(1) =~= s@.skip(i + 1));
            assert(result@.push(c) + strip_marker(s@.skip(i + 1)) =~= result@ + strip_marker(
                rest@,
            ));
            push_char(&mut result, c);
            i = i + 1;
        }
    }
    assert(s@.skip(n as int) =~= Seq::<char>::empty());
    assert(result@ + Seq::<char>::empty() =~= result@);
    result
}

/// The decimal digit for `d`.
pub open spec fn digit_char(d: nat) -> char {
    if d == 0 {
        '0'
    } else if d == 1 {
        '1'
    } else if d == 2 {
        '2'
    } else if d == 3 {
        '3'
    } else if d == 4 {
        '4'
    } else if d == 5 {
        '5'
    } else if d == 6 {
        '6'
    } else if d == 7 {
        '7'
    } else if d == 8 {
        '8'
    } else {
        '9'
    }
}

/// Decimal notation of `n`, without leading zeros.
pub open spec fn decimal(n: nat) -> Seq<char>
    decreases n,
{
    if n < 10 {
        seq![digit_char(n)]
    } else {
        decimal(n / 10).push(digit_char(n % 10))
    }
}

fn digit(d: usize) -> (c: char)
    requires
        d < 10,
    ensures
        c == digit_char(d as nat),
{
    match d {
        0 => '0',
        1 => '1',
        2 => '2',
        3 => '3',
        4 => '4',
        5 => '5',
        6 => '6',
        7 => '7',
        8 => '8',
        _ => '9',
    }
}

/// Appends the decimal notation of `n` to `s`.
pub fn push_decimal(s: &mut String, n: usize)
    ensures
        final(s)@ == old(s)@ + decimal(n as nat),
    decreases n,
{
    if n >= 10 {
        push_decimal(s, n / 10);
    }
    push_char(s, digit(n % 10));
}

/// Appends `n` copies of `c` to `s`.
pub fn push_repeated(s: &mut String, c: char, n: usize)
    ensures
        final(s)@ == old(s)@ + Seq::new(n as nat, |_i: int| c),
{
    let ghost start = s@;
    let mut i: usize = 0;
    while i < n
        invariant
            i <= n,
            s@ == start + Seq::new(i as nat, |_i: int| c),
        decreases n - i,
    {
        push_char(s, c);
        i = i + 1;
        assert(s@ =~= start + Seq::new(i as nat, |_i: int| c));
    }
}

/// Whether `a` and `b` hold the same characters.
pub fn same_text(a: &str, b: &str) -> (r: bool)
    ensures
        r == (a@ == b@),
{
    let n = a.unicode_len();
    if n != b.unicode_len() {
        return false;
    }
    let mut i: usize = 0;
    while i < n
        invariant
            n == a@.len(),
            n == b@.len(),
            i <= n,
            a@.take(i as int) == b@.take(i as int),
        decreases n - i,
    {
        if a.get_char(i) != b.get_char(i) {
            assert(a@[i as int] != b@[i as int]);
            return false;
        }
        assert(a@.take(i + 1) =~= a@.take(i as int).push(a@[i as int]));
        assert(b@.take(i + 1) =~= b@.take(i as int).push(b@[i as int]));
        i = i + 1;
    }
    assert(a@ =~= a@.take(n as int));
    assert(b@ =~= b@.take(n as int));
    true
}

/// Whether `s` begins with `p`.
pub fn starts_with(s: &str, p: &str) -> (r: bool)
    ensures
        r == (p@.len() <= s@.len() && s@.take(p@.len() as int) == p@),
{
    let n = p.unicode_len();
    if n > s.unicode_len() {
        return false;
    }
    let head = s.substring_char(0, n);
    same_text(head, p)
}

} // verus!
