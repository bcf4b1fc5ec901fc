//! Text handling for the line formats that the tracker and the blueprints
//! read: splitting at a separator, trimming white space, joining, and decimal
//! numbers. Every function is stated over the characters of its arguments.

use vstd::prelude::*;

verus! {

/// `String::push`: appends one character.
#[verifier::external_body]
pub(crate) fn push_char(s: &mut String, c: char)
    ensures
        final(s)@ == old(s)@.push(c),
{
    s.push(c)
}

/// `String::pop`: takes the last character off, if there is one.
#[verifier::external_body]
pub(crate) fn pop_char(s: &mut String) -> (last: Option<char>)
    ensures
        old(s)@.len() == 0 ==> last is None && final(s)@ == old(s)@,
        old(s)@.len() > 0 ==> last == Some(old(s)@.last()) && final(s)@ == old(s)@.drop_last(),
{
    s.pop()
}

/// The characters of a string.
pub fn chars_of(s: &str) -> (chars: Vec<char>)
    ensures
        chars@ == s@,
{
    let mut chars: Vec<char> = Vec::new();
    for c in it: s.chars()
        invariant
            chars@ == it.seq().take(it.index() as int),
            it.seq() == s@,
    {
        chars.push(c);
    }
    chars
}

/// The character at place `i`.
pub fn char_at(chars: &Vec<char>, i: usize) -> (c: char)
    requires
        i < chars@.len(),
    ensures
        c == chars@[i as int],
{
    chars[i]
}

/// The string made of the characters `chars[from..to]`.
pub fn string_of(chars: &Vec<char>, from: usize, to: usize) -> (s: String)
    requires
        from <= to <= chars@.len(),
    ensures
        s@ == chars@.subrange(from as int, to as int),
{
    let mut s = String::new();
    let mut i: usize = from;
    while i < to
        invariant
            from <= i <= to <= chars@.len(),
            s@ == chars@.subrange(from as int, i as int),
        decreases to - i,
    {
        push_char(&mut s, chars[i]);
        proof {
            assert(chars@.subrange(from as int, i + 1) =~= chars@.subrange(
                from as int,
                i as int,
            ).push(chars@[i as int]));
        }
        i += 1;
    }
    s
}

/// White space: the characters that Unicode marks as `White_Space`.
pub open spec fn is_space(c: char) -> bool {
    let n = c as u32;
    ||| 0x09 <= n <= 0x0d
    ||| n == 0x20
    ||| n == 0x85
    ||| n == 0xa0
    ||| n == 0x1680
    ||| 0x2000 <= n <= 0x200a
    ||| n == 0x2028
    ||| n == 0x2029
    ||| n == 0x202f
    ||| n == 0x205f
    ||| n == 0x3000
}

/// Whether `c` is white space.
pub fn is_whitespace(c: char) -> (b: bool)
    ensures
        b == is_space(c),
{
    let n: u32 = c as u32;
    (0x09 <= n && n <= 0x0d) || n == 0x20 || n == 0x85 || n == 0xa0 || n == 0x1680 || (0x2000 <= n
        && n <= 0x200a) || n == 0x2028 || n == 0x2029 || n == 0x202f || n == 0x205f || n == 0x3000
}

/// `s` without the white space at its start.
pub open spec fn trim_start_of(s: Seq<char>) -> Seq<char>
    decreases s.len(),
{
    if s.len() > 0 && is_space(s[0]) {
        trim_start_of(s.drop_first())
    } else {
        s
    }
}

/// `s` without the white space at its end.
pub open spec fn trim_end_of(s: Seq<char>) -> Seq<char>
    decreases s.len(),
{
    if s.len() > 0 && is_space(s.last()) {
        trim_end_of(s.drop_last())
    } else {
        s
    }
}

/// `s` without the white space at its start and at its end.
pub open spec fn trimmed(s: Seq<char>) -> Seq<char> {
    trim_end_of(trim_start_of(s))
}

/// Trimming at the start drops exactly the leading run of white space.
pub proof fn lemma_trim_start(s: Seq<char>, a: int)
    requires
        0 <= a <= s.len(),
        forall|i: int| 0 <= i < a ==> is_space(#[trigger] s[i]),
        a < s.len() ==> !is_space(s[a]),
    ensures
        trim_start_of(s) == s.skip(a),
    decreases a,
{
    if a == 0 {
        assert(s.skip(0) =~= s);
    } else {
        let rest = s.drop_first();
        assert(is_space(s[0]));
        assert forall|i: int| 0 <= i < a - 1 implies is_space(#[trigger] rest[i]) by {
            assert(rest[i] == s[i + 1]);
        }
        lemma_trim_start(rest, a - 1);
        assert(rest.skip(a - 1) =~= s.skip(a));
    }
}

/// Trimming at the end drops exactly the trailing run of white space.
pub proof fn lemma_trim_end(s: Seq<char>, b: int)
    requires
        0 <= b <= s.len(),
        forall|i: int| b <= i < s.len() ==> is_space(#[trigger] s[i]),
        b > 0 ==> !is_space(s[b - 1]),
    ensures
        trim_end_of(s) == s.take(b),
    decreases s.len() - b,
{
    if b == s.len() {
        assert(s.take(b) =~= s);
    } else {
        let rest = s.drop_last();
        assert(is_space(s[s.len() - 1]));
        assert forall|i: int| b <= i < rest.len() implies is_space(#[trigger] rest[i]) by {
            assert(rest[i] == s[i]);
        }
        lemma_trim_end(rest, b);
        assert(rest.take(b) =~= s.take(b));
    }
}

/// What trimming leaves neither starts nor ends with white space.
pub proof fn lemma_trimmed_is_tight(s: Seq<char>)
    ensures
        trimmed(s).len() > 0 ==> !is_space(trimmed(s)[0]) && !is_space(trimmed(s).last()),
        trimmed(s).len() <= s.len(),
{
    lemma_trim_start_shape(s);
    let t = trim_start_of(s);
    lemma_trim_end_shape(t);
}

/// Trimming at the start leaves a tail of `s` that does not begin with white
/// space.
pub proof fn lemma_trim_start_shape(s: Seq<char>)
    ensures
        exists|a: int|
            0 <= a <= s.len() && #[trigger] s.skip(a) == trim_start_of(s) && (a < s.len()
                ==> !is_space(s[a])),
    decreases s.len(),
{
    if s.len() > 0 && is_space(s[0]) {
        let rest = s.drop_first();
        lemma_trim_start_shape(rest);
        let a = choose|a: int|
            0 <= a <= rest.len() && #[trigger] rest.skip(a) == trim_start_of(rest) && (a
                < rest.len() ==> !is_space(rest[a]));
        assert(s.skip(a + 1) =~= rest.skip(a));
    } else {
        assert(s.skip(0) =~= s);
    }
}

/// Trimming at the end leaves a head of `s` that does not end with white
/// space, and any first character stays first.
pub proof fn lemma_trim_end_shape(s: Seq<char>)
    ensures
        exists|b: int|
            0 <= b <= s.len() && #[trigger] s.take(b) == trim_end_of(s) && (b > 0 ==> !is_space(
                s[b - 1],
            )),
    decreases s.len(),
{
    if s.len() > 0 && is_space(s.last()) {
        let rest = s.drop_last();
        lemma_trim_end_shape(rest);
        let b = choose|b: int|
            0 <= b <= rest.len() && #[trigger] rest.take(b) == trim_end_of(rest) && (b > 0
                ==> !is_space(rest[b - 1]));
        assert(s.take(b) =~= rest.take(b));
    } else {
        assert(s.take(s.len() as int) =~= s);
    }
}

/// `s` without the white space at its start and at its end.
pub fn trim_text(s: &str) -> (t: String)
    ensures
        t@ == trimmed(s@),
{
    let chars = chars_of(s);
    let mut a: usize = 0;
    while a < chars.len() && is_whitespace(chars[a])
        invariant
            a <= chars@.len(),
            forall|i: int| 0 <= i < a ==> is_space(#[trigger] chars@[i]),
        decreases chars@.len() - a,
    {
        a += 1;
    }
    let mut b: usize = chars.len();
    while b > a && is_whitespace(chars[b - 1])
        invariant
            a <= b <= chars@.len(),
            forall|i: int| b <= i < chars@.len() ==> is_space(#[trigger] chars@[i]),
        decreases b,
    {
        b -= 1;
    }
    proof {
        let full = chars@;
        lemma_trim_start(full, a as int);
        let tail = full.skip(a as int);
        assert forall|i: int| b - a <= i < tail.len() implies is_space(#[trigger] tail[i]) by {
            assert(tail[i] == full[i + a]);
        }
        if b > a {
            assert(tail[b - a - 1] == full[b - 1]);
        }
        lemma_trim_end(tail, b - a);
        assert(tail.take(b - a) =~= full.subrange(a as int, b as int));
    }
    string_of(&chars, a, b)
}

/// The pieces of `s` between the occurrences of `sep`. There is always at
/// least one piece; `n` separators give `n + 1` pieces, empty ones included.
pub open spec fn split_at_char(s: Seq<char>, sep: char) -> Seq<Seq<char>>
    decreases s.len(),
{
    if s.len() == 0 {
        seq![Seq::empty()]
    } else {
        let before = split_at_char(s.drop_last(), sep);
        if s.last() == sep {
            before.push(Seq::empty())
        } else {
            before.drop_last().push(before.last().push(s.last()))
        }
    }
}

/// The pieces with `sep` between each two neighbours.
pub open spec fn join_with(pieces: Seq<Seq<char>>, sep: char) -> Seq<char>
    decreases pieces.len(),
{
    if pieces.len() == 0 {
        Seq::empty()
    } else if pieces.len() == 1 {
        pieces[0]
    } else {
        join_with(pieces.drop_last(), sep).push(sep) + pieces.last()
    }
}

/// Splitting gives at least one piece, no piece holds the separator, and
/// joining the pieces gives the text back.
pub proof fn lemma_split_join(s: Seq<char>, sep: char)
    ensures
        split_at_char(s, sep).len() >= 1,
        forall|i: int, j: int|
            0 <= i < split_at_char(s, sep).len() && 0 <= j < split_at_char(s, sep)[i].len()
                ==> split_at_char(s, sep)[i][j] != sep,
        join_with(split_at_char(s, sep), sep) == s,
    decreases s.len(),
{
    let pieces = split_at_char(s, sep);
    if s.len() == 0 {
        assert(join_with(pieces, sep) =~= s);
    } else {
        let front = s.drop_last();
        let before = split_at_char(front, sep);
        lemma_split_join(front, sep);
        if s.last() == sep {
            assert(pieces.drop_last() =~= before);
            assert(join_with(pieces, sep) =~= s);
        } else {
            let grown = before.last().push(s.last());
            assert forall|i: int, j: int|
                0 <= i < pieces.len() && 0 <= j < pieces[i].len() implies pieces[i][j] != sep by {
                if i < pieces.len() - 1 {
                    assert(pieces[i] == before[i]);
                } else if j < before.last().len() {
                    assert(pieces[i][j] == before.last()[j]);
                }
            }
            if before.len() == 1 {
                assert(join_with(before, sep) == before[0]);
                assert(join_with(pieces, sep) =~= s);
            } else {
                assert(pieces.drop_last() =~= before.drop_last());
                assert(pieces.last() == grown);
                let head = join_with(before.drop_last(), sep).push(sep);
                assert(join_with(before, sep) == head + before.last());
                assert(join_with(pieces, sep) == head + grown);
                assert(head + grown =~= (head + before.last()).push(s.last()));
                assert(front.push(s.last()) =~= s);
            }
        }
    }
}

/// The character sequences of a list of strings.
pub open spec fn lines_of(v: Seq<String>) -> Seq<Seq<char>> {
    Seq::new(v.len(), |i: int| v[i]@)
}

/// The pieces of `s` between the occurrences of `sep`.
pub fn split_text(s: &str, sep: char) -> (pieces: Vec<String>)
    ensures
        lines_of(pieces@) == split_at_char(s@, sep),
        pieces@.len() >= 1,
{
    let chars = chars_of(s);
    let mut pieces: Vec<String> = Vec::new();
    let mut current = String::new();
    let mut i: usize = 0;
    proof {
        assert(chars@.take(0) =~= Seq::empty());
        assert(lines_of(pieces@).push(current@) =~= split_at_char(chars@.take(0), sep));
    }
    while i < chars.len()
        invariant
            i <= chars@.len(),
            lines_of(pieces@).push(current@) == split_at_char(chars@.take(i as int), sep),
        decreases chars@.len() - i,
    {
        let ghost done = lines_of(pieces@);
        let ghost open = current@;
        proof {
            assert(chars@.take(i + 1).drop_last() =~= chars@.take(i as int));
            assert(chars@.take(i + 1).last() == chars@[i as int]);
        }
        if chars[i] == sep {
            pieces.push(current);
            current = String::new();
            proof {
                assert(lines_of(pieces@) =~= done.push(open));
            }
        } else {
            push_char(&mut current, chars[i]);
            proof {
                assert(done.push(open).drop_last() =~= done);
            }
        }
        i += 1;
    }
    let ghost done = lines_of(pieces@);
    pieces.push(current);
    proof {
        assert(chars@.take(i as int) =~= chars@);
        assert(lines_of(pieces@) =~= done.push(current@));
    }
    pieces
}

/// The strings `pieces[0..count]` with `sep` between each two neighbours.
pub fn join_texts(pieces: &Vec<String>, count: usize, sep: char) -> (joined: String)
    requires
        count <= pieces@.len(),
    ensures
        joined@ == join_with(lines_of(pieces@).take(count as int), sep),
{
    let mut joined = String::new();
    let mut i: usize = 0;
    let ghost lines = lines_of(pieces@);
    proof {
        assert(lines.take(0) =~= Seq::empty());
    }
    while i < count
        invariant
            i <= count <= pieces@.len(),
            lines == lines_of(pieces@),
            joined@ == join_with(lines.take(i as int), sep),
        decreases count - i,
    {
        let ghost before = joined@;
        if i > 0 {
            push_char(&mut joined, sep);
        }
        joined.append(pieces[i].as_str());
        proof {
            assert(lines.take(i + 1).drop_last() =~= lines.take(i as int));
            assert(lines.take(i + 1).last() == pieces@[i as int]@);
            if i == 0 {
                assert(before + pieces@[i as int]@ =~= pieces@[i as int]@);
            }
        }
        i += 1;
    }
    joined
}

/// A decimal digit.
pub open spec fn is_digit(c: char) -> bool {
    0x30 <= c as u32 <= 0x39
}

/// The number that a decimal digit stands for.
pub open spec fn digit_value(c: char) -> nat {
    (c as u32 - 0x30) as nat
}

/// Every character is a decimal digit.
pub open spec fn all_digits(s: Seq<char>) -> bool {
    forall|i: int| 0 <= i < s.len() ==> is_digit(#[trigger] s[i])
}

/// The number that a sequence of decimal digits stands for.
pub open spec fn decimal_value(s: Seq<char>) -> nat
    decreases s.len(),
{
    if s.len() == 0 {
        0
    } else {
        decimal_value(s.drop_last()) * 10 + digit_value(s.last())
    }
}

/// The digits of a number that may be written with a plus sign in front.
pub open spec fn without_sign(s: Seq<char>) -> Seq<char> {
    if s.len() > 0 && s[0] == '+' {
        s.drop_first()
    } else {
        s
    }
}

/// The number that `s` stands for, if it is one and at most `max`: an
/// optional plus sign and then one or more decimal digits, nothing else.
pub open spec fn parse_unsigned_spec(s: Seq<char>, max: nat) -> Option<nat> {
    let digits = without_sign(s);
    if digits.len() > 0 && all_digits(digits) && decimal_value(digits) <= max {
        Some(decimal_value(digits))
    } else {
        None
    }
}

/// More digits never give a smaller number.
pub proof fn lemma_decimal_prefix(s: Seq<char>, k: int)
    requires
        0 <= k <= s.len(),
    ensures
        decimal_value(s.take(k)) <= decimal_value(s),
    decreases s.len() - k,
{
    if k == s.len() {
        assert(s.take(k) =~= s);
    } else {
        lemma_decimal_prefix(s.drop_last(), k);
        assert(s.drop_last().take(k) =~= s.take(k));
    }
}

/// The number that `s` stands for, if it is one and at most `max`.
pub fn parse_unsigned(s: &str, max: u64) -> (r: Option<u64>)
    ensures
        match r {
            Some(v) => parse_unsigned_spec(s@, max as nat) == Some(v as nat),
            None => parse_unsigned_spec(s@, max as nat) is None,
        },
{
    let chars = chars_of(s);
    let start: usize = if chars.len() > 0 && chars[0] == '+' {
        1
    } else {
        0
    };
    let ghost digits = without_sign(chars@);
    proof {
        assert(digits =~= chars@.skip(start as int));
        assert(digits.take(0) =~= Seq::empty());
    }
    if start == chars.len() {
        return None;
    }
    let mut acc: u64 = 0;
    let mut i: usize = start;
    while i < chars.len()
        invariant
            start <= i <= chars@.len(),
            digits == chars@.skip(start as int),
            digits == without_sign(s@),
            all_digits(digits.take(i - start)),
            acc == decimal_value(digits.take(i - start)),
            acc <= max,
        decreases chars@.len() - i,
    {
        let c = chars[i];
        let n: u32 = c as u32;
        let ghost seen = digits.take(i - start);
        let ghost more = digits.take(i + 1 - start);
        proof {
            assert(more.drop_last() =~= seen);
            assert(more.last() == c);
            assert(digits[i - start] == c);
        }
        if n < 0x30 || n > 0x39 {
            return None;
        }
        let d: u64 = (n - 0x30) as u64;
        if d > max || acc > (max - d) / 10 {
            proof {
                assert(decimal_value(more) == acc * 10 + d);
                assert(acc * 10 + d > max) by (nonlinear_arith)
                    requires
                        d > max || acc > (max - d) / 10,
                        d <= 9,
                ;
                if all_digits(digits) {
                    lemma_decimal_prefix(digits, i + 1 - start);
                }
            }
            return None;
        }
        proof {
            assert(acc * 10 + d <= max) by (nonlinear_arith)
                requires
                    acc <= (max - d) / 10,
                    d <= max,
            ;
            assert forall|j: int| 0 <= j < more.len() implies is_digit(#[trigger] more[j]) by {
                if j < seen.len() {
                    assert(more[j] == seen[j]);
                }
            }
        }
        acc = acc * 10 + d;
        i += 1;
    }
    proof {
        assert(digits.take(i - start) =~= digits);
    }
    Some(acc)
}

/// The character that stands for a number below ten.
pub open spec fn digit_char(d: nat) -> char {
    (0x30 + d) as char
}

/// A number written in decimal digits, without leading zeros.
pub open spec fn decimal_digits(n: nat) -> Seq<char>
    decreases n,
{
    if n < 10 {
        seq![digit_char(n)]
    } else {
        decimal_digits(n / 10).push(digit_char(n % 10))
    }
}

/// What `decimal_digits` writes, `parse_unsigned_spec` reads back.
pub proof fn lemma_decimal_round_trip(n: nat, max: nat)
    requires
        n <= max,
    ensures
        all_digits(decimal_digits(n)),
        decimal_digits(n).len() > 0,
        decimal_value(decimal_digits(n)) == n,
        parse_unsigned_spec(decimal_digits(n), max) == Some(n),
    decreases n,
{
    let text = decimal_digits(n);
    if n < 10 {
        assert(text.drop_last() =~= Seq::empty());
        assert(decimal_value(text.drop_last()) == 0);
        assert(text.last() == digit_char(n));
    } else {
        lemma_decimal_round_trip(n / 10, max);
        let front = decimal_digits(n / 10);
        assert(text.drop_last() =~= front);
        assert(text.last() == digit_char(n % 10));
        assert forall|i: int| 0 <= i < text.len() implies is_digit(#[trigger] text[i]) by {
            if i < front.len() {
                assert(text[i] == front[i]);
            }
        }
    }
    assert(text[0] != '+') by {
        assert(is_digit(text[0]));
    }
    assert(without_sign(text) == text);
}

/// The digit that stands for `d`.
pub fn digit_of(d: u8) -> (c: char)
    requires
        d < 10,
    ensures
        c == digit_char(d as nat),
{
    (0x30 + d) as char
}

/// The digits of `n`, and none for zero.
pub open spec fn leading_digits(n: nat) -> Seq<char> {
    if n > 0 {
        decimal_digits(n)
    } else {
        Seq::empty()
    }
}

/// `n` written in decimal digits.
pub fn decimal_text(n: u64) -> (text: String)
    ensures
        text@ == decimal_digits(n as nat),
{
    let mut reversed: Vec<char> = Vec::new();
    let mut rest: u64 = n;
    reversed.push(digit_of((rest % 10) as u8));
    rest = rest / 10;
    proof {
        assert(reversed@.reverse() =~= seq![digit_char((n % 10) as nat)]);
        assert(leading_digits(rest as nat) + reversed@.reverse() =~= decimal_digits(n as nat));
    }
    while rest > 0
        invariant
            reversed@.len() >= 1,
            leading_digits(rest as nat) + reversed@.reverse() == decimal_digits(n as nat),
        decreases rest,
    {
        let ghost before = reversed@;
        let ghost d = digit_char((rest % 10) as nat);
        reversed.push(digit_of((rest % 10) as u8));
        proof {
            assert(reversed@.reverse() =~= seq![d] + before.reverse());
            assert(leading_digits(rest as nat) =~= leading_digits((rest / 10) as nat).push(d));
            assert(leading_digits((rest / 10) as nat) + reversed@.reverse() =~= leading_digits(
                rest as nat,
            ) + before.reverse());
        }
        rest = rest / 10;
    }
    let mut text = String::new();
    let mut i: usize = reversed.len();
    let ghost forward = reversed@.reverse();
    proof {
        assert(forward.take(0) =~= Seq::empty());
    }
    while i > 0
        invariant
            i <= reversed@.len(),
            forward == reversed@.reverse(),
            text@ == forward.take(reversed@.len() - i),
        decreases i,
    {
        i -= 1;
        push_char(&mut text, reversed[i]);
        proof {
            let k = reversed@.len() - i - 1;
            assert(forward[k] == reversed@[i as int]);
            assert(forward.take(k + 1) =~= forward.take(k).push(forward[k]));
        }
    }
    proof {
        assert(forward.take(reversed@.len() as int) =~= forward);
        assert(leading_digits(0) + forward =~= forward);
    }
    text
}

} // verus!
