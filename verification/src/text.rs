//! Character-level building blocks for the textual forms used across the
//! ledger: decimal numerals, splitting at a separator and joining pieces.

use vstd::prelude::*;

verus! {

/// Whether `c` is one of the ASCII digits `0` to `9`.
pub open spec fn is_digit(c: char) -> bool {
    '0' <= c <= '9'
}

/// The number a digit stands for.
pub open spec fn digit_value(c: char) -> int {
    c as int - '0' as int
}

/// The digit that stands for `d`, for `0 <= d <= 9`.
pub open spec fn digit_char(d: int) -> char {
    (d + 48) as u8 as char
}

/// Whether every character of `s` is a digit.
pub open spec fn all_digits(s: Seq<char>) -> bool {
    forall|i: int| 0 <= i < s.len() ==> is_digit(#[trigger] s[i])
}

/// The number that a run of digits denotes, most significant digit first.
/// The empty run denotes zero.
pub open spec fn digits_value(s: Seq<char>) -> nat
    decreases s.len(),
{
    if s.len() == 0 {
        0
    } else {
        (digits_value(s.drop_last()) * 10 + digit_value(s.last())) as nat
    }
}

/// The shortest decimal numeral of `n`.
pub open spec fn decimal(n: nat) -> Seq<char>
    decreases n,
{
    if n < 10 {
        seq![digit_char(n as int)]
    } else {
        decimal(n / 10).push(digit_char((n % 10) as int))
    }
}

/// The digits of an integer text: the text without its sign, if it has one.
pub open spec fn digits_part(s: Seq<char>) -> Seq<char> {
    if s.len() > 0 && (s[0] == '+' || s[0] == '-') {
        s.skip(1)
    } else {
        s
    }
}

/// Whether `s` is an integer: one or more digits, with `+` or `-` in front
/// or without a sign.
pub open spec fn is_integer_text(s: Seq<char>) -> bool {
    digits_part(s).len() > 0 && all_digits(digits_part(s))
}

/// Whether `s` begins with a minus sign.
pub open spec fn is_negative_text(s: Seq<char>) -> bool {
    s.len() > 0 && s[0] == '-'
}

/// `magnitude`, negated if `negative`.
pub open spec fn signed(negative: bool, magnitude: int) -> int {
    if negative {
        -magnitude
    } else {
        magnitude
    }
}

/// The number that an integer text denotes.
pub open spec fn integer_value(s: Seq<char>) -> int {
    signed(is_negative_text(s), digits_value(digits_part(s)) as int)
}

/// The number that a text denotes, if the text is an integer and the number
/// lies between `low` and `high`.
pub open spec fn integer_within(s: Seq<char>, low: int, high: int) -> Option<int> {
    if is_integer_text(s) && low <= integer_value(s) <= high {
        Some(integer_value(s))
    } else {
        None
    }
}

/// Whether `i` is the position of the first `c` in `s`.
pub open spec fn is_first(s: Seq<char>, c: char, i: int) -> bool {
    &&& 0 <= i < s.len()
    &&& s[i] == c
    &&& forall|j: int| 0 <= j < i ==> s[j] != c
}

/// The position of the first `c` in `s`, meaningful when `s` contains `c`.
pub open spec fn first_index(s: Seq<char>, c: char) -> int {
    choose|i: int| is_first(s, c, i)
}

/// The pieces of `parts`, with `sep` between each two neighbours.
pub open spec fn joined(parts: Seq<Seq<char>>, sep: Seq<char>) -> Seq<char>
    decreases parts.len(),
{
    if parts.len() == 0 {
        Seq::empty()
    } else if parts.len() == 1 {
        parts[0]
    } else {
        joined(parts.drop_last(), sep) + sep + parts.last()
    }
}

/// A digit's value and its character are inverse to each other.
pub proof fn lemma_digit_char(d: int)
    requires
        0 <= d <= 9,
    ensures
        is_digit(digit_char(d)),
        digit_value(digit_char(d)) == d,
{
}

/// A decimal numeral is a non-empty run of digits that denotes its number.
pub proof fn lemma_decimal_value(n: nat)
    ensures
        decimal(n).len() > 0,
        all_digits(decimal(n)),
        digits_value(decimal(n)) == n,
    decreases n,
{
    if n < 10 {
        lemma_digit_char(n as int);
        let s = decimal(n);
        assert(s.drop_last() =~= Seq::<char>::empty());
        assert(digits_value(s.drop_last()) == 0);
    } else {
        lemma_decimal_value(n / 10);
        lemma_digit_char((n % 10) as int);
        let s = decimal(n);
        assert(s.drop_last() =~= decimal(n / 10));
        assert(s.last() == digit_char((n % 10) as int));
    }
}

/// Only one position can be the first occurrence.
pub proof fn lemma_first_unique(s: Seq<char>, c: char, i: int, j: int)
    requires
        is_first(s, c, i),
        is_first(s, c, j),
    ensures
        i == j,
{
    if i < j {
        assert(s[i] != c);
    } else if j < i {
        assert(s[j] != c);
    }
}

/// The position found by a search is the one `first_index` names.
pub proof fn lemma_first_index(s: Seq<char>, c: char, i: int)
    requires
        is_first(s, c, i),
    ensures
        first_index(s, c) == i,
        s.contains(c),
{
    lemma_first_unique(s, c, i, first_index(s, c));
}

/// A prefix of a run of digits denotes no more than the whole run.
pub proof fn lemma_digits_prefix(s: Seq<char>, k: int)
    requires
        all_digits(s),
        0 <= k <= s.len(),
    ensures
        digits_value(s.take(k)) <= digits_value(s),
    decreases s.len() - k,
{
    if k == s.len() {
        assert(s.take(k) =~= s);
    } else {
        lemma_digits_prefix(s, k + 1);
        let t = s.take(k + 1);
        assert(t.drop_last() =~= s.take(k));
        assert(t.last() == s[k]);
        assert(is_digit(s[k]));
    }
}

/// The characters of a string slice, in order.
pub fn chars_of(s: &str) -> (v: Vec<char>)
    ensures
        v@ == s@,
{
    let mut v: Vec<char> = Vec::new();
    for c in it: s.chars()
        invariant
            v@ == it.seq().take(it.index() as int),
            it.seq() == s@,
    {
        v.push(c);
    }
    v
}

/// `String::push` of the standard library: the character is appended at the
/// end and nothing else changes.
#[verifier::external_body]
pub(crate) fn push_char(s: &mut String, c: char)
    ensures
        final(s)@ == old(s)@.push(c),
{
    s.push(c)
}

/// The string made of the given characters.
pub fn string_of(chars: &Vec<char>) -> (s: String)
    ensures
        s@ == chars@,
{
    let mut s = String::new();
    let mut i: usize = 0;
    while i < chars.len()
        invariant
            i <= chars.len(),
            s@ == chars@.take(i as int),
        decreases chars.len() - i,
    {
        push_char(&mut s, chars[i]);
        i += 1;
        assert(chars@.take(i as int) =~= chars@.take(i as int - 1).push(chars@[i as int - 1]));
    }
    assert(chars@.take(i as int) =~= chars@);
    s
}

/// Appends every character of `more` to `out`.
pub fn push_all(out: &mut Vec<char>, more: &Vec<char>)
    ensures
        final(out)@ == old(out)@ + more@,
{
    let mut i: usize = 0;
    while i < more.len()
        invariant
            i <= more.len(),
            out@ == old(out)@ + more@.take(i as int),
        decreases more.len() - i,
    {
        out.push(more[i]);
        i += 1;
        assert(more@.take(i as int) =~= more@.take(i as int - 1).push(more@[i as int - 1]));
    }
    assert(more@.take(i as int) =~= more@);
}

/// Appends the characters of a string slice to `out`.
pub fn push_str(out: &mut Vec<char>, more: &str)
    ensures
        final(out)@ == old(out)@ + more@,
{
    let chars = chars_of(more);
    push_all(out, &chars);
}

/// The value of a digit character, if it is one.
pub fn digit_of(c: char) -> (r: Option<u8>)
    ensures
        r is Some <==> is_digit(c),
        r is Some ==> r->0 as int == digit_value(c),
{
    if c >= '0' && c <= '9' {
        Some((c as u32 - '0' as u32) as u8)
    } else {
        None
    }
}

/// The character of a single digit.
pub fn char_of_digit(d: u8) -> (c: char)
    requires
        d <= 9,
    ensures
        c == digit_char(d as int),
{
    (d + 48) as char
}

/// Appends the shortest decimal numeral of `n` to `out`.
pub fn push_decimal(out: &mut Vec<char>, n: u64)
    ensures
        final(out)@ == old(out)@ + decimal(n as nat),
    decreases n,
{
    if n < 10 {
        out.push(char_of_digit(n as u8));
        assert(out@ =~= old(out)@ + decimal(n as nat));
    } else {
        push_decimal(out, n / 10);
        out.push(char_of_digit((n % 10) as u8));
        assert(out@ =~= old(out)@ + decimal(n as nat));
    }
}

/// Reads `s[from..to]` as a run of digits. The result is the number it
/// denotes if the range is non-empty, holds digits only and denotes at most
/// `limit`; otherwise there is none.
pub fn parse_digits(s: &Vec<char>, from: usize, to: usize, limit: u64) -> (r: Option<u64>)
    requires
        from <= to <= s.len(),
        limit <= u64::MAX / 16,
    ensures
        r is Some <==> from < to && all_digits(s@.subrange(from as int, to as int)) && digits_value(
            s@.subrange(from as int, to as int),
        ) <= limit,
        r is Some ==> r->0 == digits_value(s@.subrange(from as int, to as int)),
{
    let ghost run = s@.subrange(from as int, to as int);
    if from == to {
        return None;
    }
    let mut acc: u64 = 0;
    let mut i: usize = from;
    while i < to
        invariant
            from <= i <= to <= s.len(),
            run == s@.subrange(from as int, to as int),
            all_digits(run.take(i - from)),
            acc == digits_value(run.take(i - from)),
            acc <= limit <= u64::MAX / 16,
        decreases to - i,
    {
        let ghost before = run.take(i - from);
        let ghost after = run.take(i - from + 1);
        proof {
            assert(after.drop_last() =~= before);
            assert(after.last() == s@[i as int]);
        }
        match digit_of(s[i]) {
            None => {
                proof {
                    assert(run[i - from] == s@[i as int]);
                    assert(!is_digit(run[i - from]));
                }
                return None;
            },
            Some(d) => {
                let next = acc * 10 + d as u64;
                proof {
                    assert forall|j: int| 0 <= j < after.len() implies is_digit(
                        #[trigger] after[j],
                    ) by {
                        if j < before.len() {
                            assert(after[j] == before[j]);
                        }
                    }
                    assert(next == digits_value(after));
                }
                if next > limit {
                    proof {
                        if all_digits(run) {
                            lemma_digits_prefix(run, i - from + 1);
                        }
                    }
                    return None;
                }
                acc = next;
            },
        }
        i += 1;
    }
    proof {
        assert(run.take(i - from) =~= run);
    }
    Some(acc)
}

/// The position of the first `c` in `s`, if there is one.
pub fn find_char(s: &Vec<char>, c: char) -> (r: Option<usize>)
    ensures
        r is Some <==> s@.contains(c),
        r is Some ==> is_first(s@, c, r->0 as int) && r->0 as int == first_index(s@, c),
{
    let mut i: usize = 0;
    while i < s.len()
        invariant
            i <= s.len(),
            forall|j: int| 0 <= j < i ==> s@[j] != c,
        decreases s.len() - i,
    {
        if s[i] == c {
            proof {
                lemma_first_index(s@, c, i as int);
            }
            return Some(i);
        }
        i += 1;
    }
    proof {
        if s@.contains(c) {
            let j = choose|j: int| 0 <= j < s@.len() && s@[j] == c;
            assert(s@[j] != c);
        }
    }
    None
}

/// The characters of `s[from..to]` as a vector of their own.
pub fn slice_of(s: &Vec<char>, from: usize, to: usize) -> (r: Vec<char>)
    requires
        from <= to <= s.len(),
    ensures
        r@ == s@.subrange(from as int, to as int),
{
    let mut r: Vec<char> = Vec::new();
    let mut i: usize = from;
    while i < to
        invariant
            from <= i <= to <= s.len(),
            r@ == s@.subrange(from as int, i as int),
        decreases to - i,
    {
        r.push(s[i]);
        i += 1;
        assert(s@.subrange(from as int, i as int) =~= s@.subrange(from as int, i as int - 1).push(
            s@[i as int - 1],
        ));
    }
    r
}

/// Whether two vectors hold the same characters.
pub fn same_chars(a: &Vec<char>, b: &Vec<char>) -> (r: bool)
    ensures
        r == (a@ == b@),
{
    if a.len() != b.len() {
        return false;
    }
    let mut i: usize = 0;
    while i < a.len()
        invariant
            i <= a.len(),
            a.len() == b.len(),
            forall|j: int| 0 <= j < i ==> a@[j] == b@[j],
        decreases a.len() - i,
    {
        if a[i] != b[i] {
            return false;
        }
        i += 1;
    }
    assert(a@ =~= b@);
    true
}

/// Whether two string slices hold the same text.
pub fn same_text(a: &str, b: &str) -> (r: bool)
    ensures
        r == (a@ == b@),
{
    let x = chars_of(a);
    let y = chars_of(b);
    same_chars(&x, &y)
}

/// A copy of a string slice as an owned string.
pub fn owned(s: &str) -> (r: String)
    ensures
        r@ == s@,
{
    let chars = chars_of(s);
    string_of(&chars)
}

/// `items` with `sep` put between each two neighbours.
pub open spec fn interspersed(items: Seq<Seq<char>>, sep: Seq<char>) -> Seq<Seq<char>>
    decreases items.len(),
{
    if items.len() <= 1 {
        items
    } else {
        interspersed(items.drop_last(), sep).push(sep).push(items.last())
    }
}

/// The character sequences of the given vectors, in order.
pub open spec fn views(pieces: Seq<Vec<char>>) -> Seq<Seq<char>> {
    pieces.map_values(|p: Vec<char>| p@)
}

/// Joining pieces with a separator is writing out the pieces with the
/// separator put between them.
pub proof fn lemma_interspersed_flat(items: Seq<Seq<char>>, sep: Seq<char>)
    ensures
        interspersed(items, sep).flatten() == joined(items, sep),
    decreases items.len(),
{
    broadcast use vstd::seq_lib::group_seq_properties;

    if items.len() == 0 {
        assert(interspersed(items, sep) =~= Seq::<Seq<char>>::empty());
        assert(joined(items, sep) =~= Seq::<char>::empty());
        assert(interspersed(items, sep).flatten() =~= Seq::<char>::empty());
    } else if items.len() == 1 {
        assert(interspersed(items, sep) =~= seq![items[0]]);
        seq![items[0]].lemma_flatten_one_element();
    } else {
        let front = items.drop_last();
        lemma_interspersed_flat(front, sep);
        let a = interspersed(front, sep);
        lemma_flatten_push(a, sep);
        lemma_flatten_push(a.push(sep), items.last());
    }
}

/// Writing out a sequence of pieces with one more piece at its end appends
/// that piece.
proof fn lemma_flatten_push(pieces: Seq<Seq<char>>, last: Seq<char>)
    ensures
        pieces.push(last).flatten() == pieces.flatten() + last,
    decreases pieces.len(),
{
    if pieces.len() == 0 {
        assert(pieces.push(last) =~= seq![last]);
        seq![last].lemma_flatten_one_element();
        assert(pieces.flatten() =~= Seq::<char>::empty());
        assert(pieces.flatten() + last =~= last);
    } else {
        let rest = pieces.drop_first();
        lemma_flatten_push(rest, last);
        assert(pieces.push(last).drop_first() =~= rest.push(last));
        assert(pieces.push(last).first() == pieces.first());
        assert(pieces.push(last).flatten() =~= pieces.first() + rest.push(last).flatten());
        assert(pieces.flatten() =~= pieces.first() + rest.flatten());
        assert(pieces.push(last).flatten() =~= pieces.flatten() + last);
    }
}

/// `itertools::intersperse`, with what it yields collected: the pieces in
/// their order, and a copy of `sep` between each two neighbours.
#[verifier::external_body]
fn intersperse(parts: Vec<Vec<char>>, sep: Vec<char>) -> (r: Vec<Vec<char>>)
    ensures
        views(r@) == interspersed(views(parts@), sep@),
{
    itertools::intersperse(parts, sep).collect()
}

/// All the characters of the pieces, in order.
pub fn concat(pieces: &Vec<Vec<char>>) -> (r: Vec<char>)
    ensures
        r@ == views(pieces@).flatten(),
{
    let mut out: Vec<char> = Vec::new();
    let mut i: usize = 0;
    let ghost all = views(pieces@);
    proof {
        assert(all.take(0) =~= Seq::<Seq<char>>::empty());
    }
    while i < pieces.len()
        invariant
            i <= pieces.len(),
            all == views(pieces@),
            all.len() == pieces.len(),
            out@ == all.take(i as int).flatten(),
        decreases pieces.len() - i,
    {
        proof {
            assert(all.take(i + 1) =~= all.take(i as int).push(all[i as int]));
            lemma_flatten_push(all.take(i as int), all[i as int]);
            assert(all[i as int] == pieces@[i as int]@);
        }
        push_all(&mut out, &pieces[i]);
        i += 1;
    }
    proof {
        assert(all.take(i as int) =~= all);
    }
    out
}

/// The pieces with `sep` between each two neighbours, as one run of
/// characters.
pub fn join(parts: Vec<Vec<char>>, sep: &str) -> (r: Vec<char>)
    ensures
        r@ == joined(views(parts@), sep@),
{
    let between = chars_of(sep);
    let ghost pieces = views(parts@);
    let spread = intersperse(parts, between);
    proof {
        lemma_interspersed_flat(pieces, sep@);
    }
    concat(&spread)
}

/// Reads an integer: one or more digits, with `+` or `-` in front or
/// without a sign. The answer is the number, if the text is an integer and
/// the number lies between `low` and `high`.
pub fn parse_integer(s: &str, low: i64, high: i64) -> (r: Option<i64>)
    requires
        -0x1000_0000_0000 <= low <= high <= 0x1000_0000_0000,
    ensures
        r is Some <==> integer_within(s@, low as int, high as int) is Some,
        r is Some ==> r->0 as int == integer_within(s@, low as int, high as int)->0,
{
    let chars = chars_of(s);
    let n = chars.len();
    let has_sign = n > 0 && (chars[0] == '+' || chars[0] == '-');
    let negative = n > 0 && chars[0] == '-';
    let start: usize = if has_sign {
        1
    } else {
        0
    };
    proof {
        assert(digits_part(s@) =~= chars@.subrange(start as int, n as int));
    }
    match parse_digits(&chars, start, n, 0x1000_0000_0000) {
        Some(m) => {
            let value: i64 = if negative {
                -(m as i64)
            } else {
                m as i64
            };
            if low <= value && value <= high {
                Some(value)
            } else {
                None
            }
        },
        None => None,
    }
}

} // verus!
