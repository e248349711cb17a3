//! Building and reading text: decimal numbers, trimming, and the comparisons
//! that ignore ASCII case.

use vstd::prelude::*;
use vstd::string::*;

verus! {

/// `String::push` of std: the character is appended to the text.
pub assume_specification[ String::push ](s: &mut String, c: char)
    ensures
        final(s)@ == old(s)@.push(c),
;

// ---------------------------------------------------------------------------
// Decimal numbers
// ---------------------------------------------------------------------------

/// The character of the decimal digit `d`.
pub open spec fn digit(d: nat) -> char {
    (48 + d) as char
}

/// `n` written in decimal, without leading zeros.
pub open spec fn decimal(n: nat) -> Seq<char>
    decreases n,
{
    if n < 10 {
        seq![digit(n)]
    } else {
        decimal(n / 10).push(digit(n % 10))
    }
}

/// `n` zeros.
pub open spec fn zeros(n: int) -> Seq<char> {
    Seq::new(
        if n > 0 {
            n as nat
        } else {
            0
        },
        |i: int| '0',
    )
}

/// `n` in decimal, filled up on the left with zeros to at least `width` characters.
pub open spec fn zero_padded(n: nat, width: nat) -> Seq<char> {
    zeros(width - decimal(n).len()) + decimal(n)
}

/// Appends `n` in decimal.
pub fn push_decimal(out: &mut String, n: u64)
    ensures
        final(out)@ == old(out)@ + decimal(n as nat),
    decreases n,
{
    if n >= 10 {
        push_decimal(out, n / 10);
    }
    let d: u8 = (n % 10) as u8;
    out.push((48 + d) as char);
    assert(out@ =~= old(out)@ + decimal(n as nat));
}

/// The number of characters of `n` in decimal.
fn decimal_width(n: u64) -> (w: usize)
    ensures
        w == decimal(n as nat).len(),
        1 <= w <= 20,
{
    proof {
        lemma_u64_width(n);
    }
    let mut w: usize = 1;
    let mut rest: u64 = n;
    while rest >= 10
        invariant
            w + decimal(rest as nat).len() == decimal(n as nat).len() + 1,
            decimal(n as nat).len() <= 20,
            1 <= w,
        decreases rest,
    {
        assert(decimal(rest as nat).len() == decimal((rest / 10) as nat).len() + 1);
        w = w + 1;
        rest = rest / 10;
    }
    w
}

/// Ten to the power `k`.
pub open spec fn pow10(k: nat) -> nat
    decreases k,
{
    if k == 0 {
        1
    } else {
        10 * pow10((k - 1) as nat)
    }
}

proof fn lemma_decimal_len_pow(n: nat, k: nat)
    requires
        k >= 1,
        n < pow10(k),
    ensures
        decimal(n).len() <= k,
    decreases k,
{
    reveal_with_fuel(pow10, 2);
    if n >= 10 {
        lemma_decimal_len_pow(n / 10, (k - 1) as nat);
    }
}

proof fn lemma_u64_width(n: u64)
    ensures
        decimal(n as nat).len() <= 20,
{
    reveal_with_fuel(pow10, 21);
    lemma_decimal_len_pow(n as nat, 20);
}

/// Appends `n` in decimal, filled up with zeros to at least `width` characters.
pub fn push_padded(out: &mut String, n: u64, width: usize)
    ensures
        final(out)@ == old(out)@ + zero_padded(n as nat, width as nat),
{
    let len: usize = decimal_width(n);
    let mut done: usize = len;
    while done < width
        invariant
            len == decimal(n as nat).len(),
            len <= done,
            done <= width || done == len,
            out@ == old(out)@ + zeros(done - len),
        decreases width - done,
    {
        out.push('0');
        done = done + 1;
        assert(zeros(done - len) =~= zeros(done - 1 - len).push('0'));
        assert(out@ =~= old(out)@ + zeros(done - len));
    }
    push_decimal(out, n);
    assert(zeros(done - len) =~= zeros(width - len));
    assert(out@ =~= old(out)@ + zero_padded(n as nat, width as nat));
}

/// The number that a run of digits stands for.
pub open spec fn digits_value(s: Seq<char>) -> nat
    decreases s.len(),
{
    if s.len() == 0 {
        0
    } else {
        digits_value(s.drop_last()) * 10 + (s.last() as nat - 48) as nat
    }
}

/// Whether `c` is an ASCII decimal digit.
pub open spec fn is_digit(c: char) -> bool {
    '0' <= c && c <= '9'
}

/// Whether every character is an ASCII decimal digit.
pub open spec fn all_digits(s: Seq<char>) -> bool {
    forall|i: int| 0 <= i < s.len() ==> is_digit(#[trigger] s[i])
}

/// The digits of a number in text: everything behind an optional `+`.
pub open spec fn number_digits(s: Seq<char>) -> Seq<char> {
    if s.len() > 0 && s[0] == '+' {
        s.skip(1)
    } else {
        s
    }
}

/// The number that `s` stands for: an optional `+`, then one or more digits.
/// `None` for any other text, and for a number above `u32::MAX`.
pub open spec fn u32_of_text(s: Seq<char>) -> Option<u32> {
    let digits = number_digits(s);
    if digits.len() > 0 && all_digits(digits) && digits_value(digits) <= u32::MAX {
        Some(digits_value(digits) as u32)
    } else {
        None
    }
}

proof fn lemma_digits_value_prefix(s: Seq<char>, k: int)
    requires
        0 <= k <= s.len(),
    ensures
        digits_value(s.take(k)) <= digits_value(s),
    decreases s.len() - k,
{
    if k == s.len() {
        assert(s.take(k) =~= s);
    } else {
        lemma_digits_value_prefix(s, k + 1);
        assert(s.take(k + 1).drop_last() =~= s.take(k));
    }
}

/// Reads a `u32` the way `u32_of_text` says.
pub fn parse_u32(s: &str) -> (r: Option<u32>)
    ensures
        r == u32_of_text(s@),
{
    let chars: Vec<char> = chars_of(s);
    let start: usize = if chars.len() > 0 && chars[0] == '+' {
        1
    } else {
        0
    };
    let ghost digits = number_digits(s@);
    assert(digits =~= s@.skip(start as int));
    if start == chars.len() {
        return None;
    }
    let mut value: u64 = 0;
    let mut i: usize = start;
    while i < chars.len()
        invariant
            chars@ == s@,
            start <= i <= chars.len(),
            start < chars.len(),
            digits == s@.skip(start as int),
            digits == number_digits(s@),
            forall|j: int| 0 <= j < i - start ==> is_digit(#[trigger] digits[j]),
            value == digits_value(digits.take(i - start)),
            value <= u32::MAX,
        decreases chars.len() - i,
    {
        let c: char = chars[i];
        if !('0' <= c && c <= '9') {
            assert(digits[i - start] == c);
            return None;
        }
        let d: u64 = (c as u32 - 48) as u64;
        proof {
            let longer = digits.take(i - start + 1);
            assert(longer.drop_last() =~= digits.take(i - start));
            assert(longer.last() == c);
            lemma_digits_value_prefix(digits, i - start + 1);
        }
        value = value * 10 + d;
        i = i + 1;
        if value > u32::MAX as u64 {
            return None;
        }
    }
    assert(digits.take(i - start) =~= digits);
    Some(value as u32)
}

/// A number in decimal is made of digits, and they stand for the number.
pub proof fn law_decimal_value(n: nat)
    ensures
        all_digits(decimal(n)),
        digits_value(decimal(n)) == n,
    decreases n,
{
    if n < 10 {
        assert(decimal(n).drop_last() =~= Seq::empty());
        assert(digits_value(Seq::<char>::empty()) == 0);
    } else {
        law_decimal_value(n / 10);
        assert(decimal(n).drop_last() =~= decimal(n / 10));
    }
}

proof fn lemma_leading_zeros(z: int, s: Seq<char>)
    requires
        all_digits(s),
    ensures
        all_digits(zeros(z) + s),
        digits_value(zeros(z) + s) == digits_value(s),
    decreases s.len(), z,
{
    let t = zeros(z) + s;
    if s.len() > 0 {
        lemma_leading_zeros(z, s.drop_last());
        assert(t.drop_last() =~= zeros(z) + s.drop_last());
    } else if z > 0 {
        lemma_leading_zeros(z - 1, s);
        assert(t.drop_last() =~= zeros(z - 1) + s);
    } else {
        assert(t =~= s);
    }
}

/// Leading zeros are digits too, and leave the number what it is.
pub proof fn law_padded_value(n: nat, width: nat)
    ensures
        all_digits(zero_padded(n, width)),
        digits_value(zero_padded(n, width)) == n,
        zero_padded(n, width).len() >= width,
{
    law_decimal_value(n);
    lemma_leading_zeros(width - decimal(n).len(), decimal(n));
}

/// A `u32` that was written in decimal is read back.
pub proof fn law_parse_decimal(n: u32)
    ensures
        u32_of_text(decimal(n as nat)) == Some(n),
{
    law_decimal_value(n as nat);
    assert(is_digit(decimal(n as nat)[0]));
}

// ---------------------------------------------------------------------------
// Characters of a text
// ---------------------------------------------------------------------------

/// The characters of `s`.
pub fn chars_of(s: &str) -> (r: Vec<char>)
    ensures
        r@ == s@,
{
    let mut out: Vec<char> = Vec::new();
    for c in it: s.chars()
        invariant
            out@ == it.seq().take(it.index()),
            it.seq() == s@,
    {
        out.push(c);
    }
    assert(out@ =~= s@);
    out
}

/// Whether two texts are the same.
pub fn same_text(a: &str, b: &str) -> (r: bool)
    ensures
        r == (a@ == b@),
{
    let x: Vec<char> = chars_of(a);
    let y: Vec<char> = chars_of(b);
    if x.len() != y.len() {
        return false;
    }
    let mut i: usize = 0;
    while i < x.len()
        invariant
            x@ == a@,
            y@ == b@,
            x.len() == y.len(),
            i <= x.len(),
            forall|j: int| 0 <= j < i ==> x@[j] == y@[j],
        decreases x.len() - i,
    {
        if x[i] != y[i] {
            return false;
        }
        i = i + 1;
    }
    assert(a@ =~= b@);
    true
}

/// Whether `s` starts with `prefix`.
pub open spec fn starts_with(s: Seq<char>, prefix: Seq<char>) -> bool {
    prefix.len() <= s.len() && s.take(prefix.len() as int) == prefix
}

// ---------------------------------------------------------------------------
// Trimming
// ---------------------------------------------------------------------------

/// What is taken off both ends of a text.
#[derive(Clone, Copy, PartialEq, Eq, Structural, Debug)]
pub enum Edge {
    /// White space, as the Unicode property `White_Space` has it.
    Blank,
    /// The apostrophe.
    Quote,
}

/// Whether `c` has the Unicode property `White_Space`.
pub open spec fn is_white_space(c: char) -> bool {
    let n = c as int;
    ||| 0x9 <= n <= 0xd
    ||| n == 0x20
    ||| n == 0x85
    ||| n == 0xa0
    ||| n == 0x1680
    ||| 0x2000 <= n <= 0x200a
    ||| n == 0x2028
    ||| n == 0x2029
    ||| n == 0x202f
    ||| n == 0x205f
    ||| n == 0x3000
}

/// Whether `c` is one of the characters that `edge` takes off.
pub open spec fn is_edge(edge: Edge, c: char) -> bool {
    match edge {
        Edge::Blank => is_white_space(c),
        Edge::Quote => c == '\'',
    }
}

/// `s` without the characters of `edge` at its start.
pub open spec fn trim_start(edge: Edge, s: Seq<char>) -> Seq<char>
    decreases s.len(),
{
    if s.len() > 0 && is_edge(edge, s.first()) {
        trim_start(edge, s.drop_first())
    } else {
        s
    }
}

/// `s` without the characters of `edge` at its end.
pub open spec fn trim_end(edge: Edge, s: Seq<char>) -> Seq<char>
    decreases s.len(),
{
    if s.len() > 0 && is_edge(edge, s.last()) {
        trim_end(edge, s.drop_last())
    } else {
        s
    }
}

/// `s` without the characters of `edge` at both ends.
pub open spec fn trimmed(edge: Edge, s: Seq<char>) -> Seq<char> {
    trim_end(edge, trim_start(edge, s))
}

/// Whether `c` is white space.
pub fn blank(c: char) -> (r: bool)
    ensures
        r == is_edge(Edge::Blank, c),
{
    edge_char(Edge::Blank, c)
}

fn edge_char(edge: Edge, c: char) -> (r: bool)
    ensures
        r == is_edge(edge, c),
{
    match edge {
        Edge::Quote => c == '\'',
        Edge::Blank => {
            let n: u32 = c as u32;
            (0x9 <= n && n <= 0xd) || n == 0x20 || n == 0x85 || n == 0xa0 || n == 0x1680 || (0x2000
                <= n && n <= 0x200a) || n == 0x2028 || n == 0x2029 || n == 0x202f || n == 0x205f
                || n == 0x3000
        },
    }
}

/// Takes the characters of `edge` off both ends of `s`.
pub fn trim<'a>(edge: Edge, s: &'a str) -> (r: &'a str)
    ensures
        r@ == trimmed(edge, s@),
{
    let chars: Vec<char> = chars_of(s);
    let mut from: usize = 0;
    assert(s@.skip(0) =~= s@);
    while from < chars.len() && edge_char(edge, chars[from])
        invariant
            chars@ == s@,
            from <= chars.len(),
            trim_start(edge, s@) == trim_start(edge, s@.skip(from as int)),
        decreases chars.len() - from,
    {
        assert(s@.skip(from as int).drop_first() =~= s@.skip(from + 1));
        from = from + 1;
    }
    let ghost middle = s@.skip(from as int);
    assert(trim_start(edge, s@) == middle);
    let mut to: usize = chars.len();
    assert(middle.take(to - from) =~= middle);
    while to > from && edge_char(edge, chars[to - 1])
        invariant
            chars@ == s@,
            from <= to <= chars.len(),
            middle == s@.skip(from as int),
            trim_end(edge, middle) == trim_end(edge, middle.take(to - from)),
        decreases to,
    {
        assert(middle.take(to - from).drop_last() =~= middle.take(to - from - 1));
        to = to - 1;
    }
    assert(middle.take(to - from) =~= s@.subrange(from as int, to as int));
    s.substring_char(from, to)
}

// ---------------------------------------------------------------------------
// Lines
// ---------------------------------------------------------------------------

/// The end of the line that starts at `from`: the next line feed, or the end of the text.
pub open spec fn line_end(s: Seq<char>, from: int) -> int
    decreases s.len() - from,
{
    if from >= s.len() || s[from] == '\n' {
        from
    } else {
        line_end(s, from + 1)
    }
}

/// What follows `prefix` in the first line, from `from` on, that starts with it.
pub open spec fn first_after_prefix(s: Seq<char>, prefix: Seq<char>, from: int) -> Option<Seq<char>>
    decreases s.len() - from,
{
    if from >= s.len() || from < 0 {
        None
    } else {
        let end = line_end(s, from);
        let line = s.subrange(from, end);
        if starts_with(line, prefix) {
            Some(line.skip(prefix.len() as int))
        } else if end >= s.len() {
            None
        } else {
            proof {
                lemma_line_end(s, from);
            }
            first_after_prefix(s, prefix, end + 1)
        }
    }
}

/// A line ends within its text, at or behind its start.
pub proof fn lemma_line_end(s: Seq<char>, from: int)
    requires
        0 <= from <= s.len(),
    ensures
        from <= line_end(s, from) <= s.len(),
    decreases s.len() - from,
{
    if from < s.len() && s[from] != '\n' {
        lemma_line_end(s, from + 1);
    }
}

/// Finds the first line that starts with `prefix`, and gives what follows the
/// prefix in it.
pub fn find_after_prefix<'a>(s: &'a str, prefix: &str) -> (r: Option<&'a str>)
    requires
        prefix@.len() > 0,
    ensures
        match r {
            Some(t) => first_after_prefix(s@, prefix@, 0) == Some(t@),
            None => first_after_prefix(s@, prefix@, 0) is None,
        },
{
    let chars: Vec<char> = chars_of(s);
    let head: Vec<char> = chars_of(prefix);
    let mut from: usize = 0;
    while from < chars.len()
        invariant
            chars@ == s@,
            head@ == prefix@,
            head.len() > 0,
            from <= chars.len(),
            first_after_prefix(s@, prefix@, 0) == first_after_prefix(s@, prefix@, from as int),
        decreases chars.len() - from,
    {
        let mut end: usize = from;
        while end < chars.len() && chars[end] != '\n'
            invariant
                chars@ == s@,
                from <= end <= chars.len(),
                line_end(s@, from as int) == line_end(s@, end as int),
            decreases chars.len() - end,
        {
            end = end + 1;
        }
        let ghost line = s@.subrange(from as int, end as int);
        let mut k: usize = 0;
        while k < head.len() && k < end - from && chars[from + k] == head[k]
            invariant
                chars@ == s@,
                head@ == prefix@,
                from <= end <= chars.len(),
                k <= head.len(),
                k <= end - from,
                line == s@.subrange(from as int, end as int),
                forall|j: int| 0 <= j < k ==> line[j] == prefix@[j],
            decreases head.len() - k,
        {
            k = k + 1;
        }
        if k == head.len() {
            assert(line.take(k as int) =~= prefix@);
            assert(line.skip(k as int) =~= s@.subrange(from + k, end as int));
            return Some(s.substring_char(from + k, end));
        }
        proof {
            if starts_with(line, prefix@) {
                assert(line.take(prefix@.len() as int)[k as int] == prefix@[k as int]);
            }
        }
        if end == chars.len() {
            return None;
        }
        from = end + 1;
    }
    None
}

// ---------------------------------------------------------------------------
// ASCII case
// ---------------------------------------------------------------------------

/// `c` with the ASCII capitals made small.
pub open spec fn ascii_lower(c: char) -> char {
    if 'A' <= c && c <= 'Z' {
        (c as int + 32) as char
    } else {
        c
    }
}

/// `s` with the ASCII capitals made small.
pub open spec fn ascii_lower_text(s: Seq<char>) -> Seq<char> {
    s.map_values(|c: char| ascii_lower(c))
}

fn lower_char(c: char) -> (r: char)
    ensures
        r == ascii_lower(c),
{
    if 'A' <= c && c <= 'Z' {
        (c as u8 + 32) as char
    } else {
        c
    }
}

/// Whether two texts are the same when ASCII case is ignored.
pub fn same_ignoring_case(a: &str, b: &str) -> (r: bool)
    ensures
        r == (ascii_lower_text(a@) == ascii_lower_text(b@)),
{
    let x: Vec<char> = chars_of(a);
    let y: Vec<char> = chars_of(b);
    let ghost la = ascii_lower_text(a@);
    let ghost lb = ascii_lower_text(b@);
    if x.len() != y.len() {
        assert(la.len() != lb.len());
        return false;
    }
    let mut i: usize = 0;
    while i < x.len()
        invariant
            x@ == a@,
            y@ == b@,
            la == ascii_lower_text(a@),
            lb == ascii_lower_text(b@),
            x.len() == y.len(),
            i <= x.len(),
            forall|j: int| 0 <= j < i ==> la[j] == lb[j],
        decreases x.len() - i,
    {
        if lower_char(x[i]) != lower_char(y[i]) {
            assert(la[i as int] != lb[i as int]);
            return false;
        }
        i = i + 1;
    }
    assert(la =~= lb);
    true
}

/// `n` written in decimal, with a sign in front where it is negative.
pub open spec fn signed_decimal(n: int) -> Seq<char> {
    if n < 0 {
        "-"@ + decimal((-n) as nat)
    } else {
        decimal(n as nat)
    }
}

/// Appends `n` in decimal, with a sign in front where it is negative.
pub fn push_signed(out: &mut String, n: i32)
    ensures
        final(out)@ == old(out)@ + signed_decimal(n as int),
{
    let wide: i64 = n as i64;
    if wide < 0 {
        out.append("-");
        push_decimal(out, (-wide) as u64);
    } else {
        push_decimal(out, wide as u64);
    }
    assert(out@ =~= old(out)@ + signed_decimal(n as int));
}

// ---------------------------------------------------------------------------
// Joining
// ---------------------------------------------------------------------------

/// The texts one behind the other, with `sep` between them.
pub open spec fn joined(parts: Seq<Seq<char>>, sep: Seq<char>) -> Seq<char>
    decreases parts.len(),
{
    if parts.len() == 0 {
        Seq::empty()
    } else if parts.len() == 1 {
        parts[0]
    } else {
        joined(parts.drop_last(), sep) + sep + parts.last()
    }
}

/// The texts of a list.
pub open spec fn text_views(v: Seq<String>) -> Seq<Seq<char>> {
    v.map_values(|s: String| s@)
}

/// Joins the texts of a list from place `from` on, with `sep` between them.
pub fn join_texts(parts: &Vec<String>, from: usize, sep: &str) -> (r: String)
    requires
        from <= parts.len(),
    ensures
        r@ == joined(text_views(parts@).skip(from as int), sep@),
{
    let ghost all = text_views(parts@).skip(from as int);
    let mut out: String = String::new();
    let mut i: usize = from;
    while i < parts.len()
        invariant
            from <= i <= parts.len(),
            all == text_views(parts@).skip(from as int),
            out@ == joined(all.take(i - from), sep@),
        decreases parts.len() - i,
    {
        if i > from {
            out.append(sep);
        }
        out.append(parts[i].as_str());
        assert(all.take(i - from + 1).drop_last() =~= all.take(i - from));
        assert(all.take(i - from + 1).last() == parts@[i as int]@);
        assert(out@ =~= joined(all.take(i - from + 1), sep@));
        i = i + 1;
    }
    assert(all.take(i - from) =~= all);
    out
}

// ---------------------------------------------------------------------------
// Laws of texts
// ---------------------------------------------------------------------------

/// A number in decimal has no zero in front but for 0 itself, and a number that is filled up has
/// as many characters as it is filled up to, or as many as it takes.
pub proof fn law_decimal_width(n: nat, width: nat)
    ensures
        n > 0 ==> decimal(n)[0] != '0',
        n < 10 ==> decimal(n).len() == 1,
        n >= 10 ==> decimal(n).len() == decimal(n / 10).len() + 1,
        decimal(n).len() <= width ==> zero_padded(n, width).len() == width,
        decimal(n).len() >= width ==> zero_padded(n, width) == decimal(n),
    decreases n,
{
    if n >= 10 {
        law_decimal_width(n / 10, 0);
        assert(decimal(n)[0] == decimal(n / 10)[0]);
    }
    if decimal(n).len() >= width {
        assert(zero_padded(n, width) =~= decimal(n));
    }
}

/// Different numbers are different in decimal.
pub proof fn law_decimals_differ(a: nat, b: nat)
    requires
        decimal(a) == decimal(b),
    ensures
        a == b,
{
    law_decimal_value(a);
    law_decimal_value(b);
}

/// Of two runs of digits of the same length, the one for the smaller number has the smaller digit
/// where they first differ.
pub proof fn law_digits_ordered(a: Seq<char>, b: Seq<char>) -> (k: int)
    requires
        all_digits(a),
        all_digits(b),
        a.len() == b.len(),
        digits_value(a) < digits_value(b),
    ensures
        0 <= k < a.len(),
        a.take(k) == b.take(k),
        a[k] < b[k],
    decreases a.len(),
{
    let x = a.drop_last();
    let y = b.drop_last();
    assert(is_digit(a[a.len() - 1]));
    assert(is_digit(b[b.len() - 1]));
    assert forall|i: int| 0 <= i < x.len() implies is_digit(#[trigger] x[i]) && is_digit(y[i]) by {
        assert(is_digit(a[i]));
        assert(is_digit(b[i]));
    }
    if digits_value(x) < digits_value(y) {
        let k = law_digits_ordered(x, y);
        assert(a.take(k) =~= x.take(k));
        assert(b.take(k) =~= y.take(k));
        k
    } else {
        if digits_value(y) < digits_value(x) {
            assert(digits_value(b) < digits_value(a));
        }
        lemma_same_value(x, y);
        assert(a.take(a.len() - 1) =~= x);
        assert(b.take(b.len() - 1) =~= y);
        a.len() - 1
    }
}

proof fn lemma_same_value(a: Seq<char>, b: Seq<char>)
    requires
        all_digits(a),
        all_digits(b),
        a.len() == b.len(),
        digits_value(a) == digits_value(b),
    ensures
        a == b,
    decreases a.len(),
{
    if a.len() == 0 {
        assert(a =~= b);
    } else {
        let x = a.drop_last();
        let y = b.drop_last();
        assert(is_digit(a[a.len() - 1]));
        assert(is_digit(b[b.len() - 1]));
        assert forall|i: int| 0 <= i < x.len() implies is_digit(#[trigger] x[i]) && is_digit(
            y[i],
        ) by {
            assert(is_digit(a[i]));
            assert(is_digit(b[i]));
        }
        lemma_same_value(x, y);
        assert(a =~= x.push(a.last()));
        assert(b =~= y.push(b.last()));
    }
}

/// A text is read as a number exactly where it is one or more digits, behind a plus sign or not,
/// and the number that they stand for fits.
pub proof fn law_numbers_are_read(digits: Seq<char>)
    requires
        digits.len() > 0,
    ensures
        all_digits(digits) && digits_value(digits) <= u32::MAX <==> u32_of_text(digits) is Some
            && digits[0] != '+',
        all_digits(digits) && digits_value(digits) <= u32::MAX ==> u32_of_text(digits) == Some(
            digits_value(digits) as u32,
        ) && u32_of_text(seq!['+'] + digits) == Some(digits_value(digits) as u32),
        u32_of_text(Seq::<char>::empty()) is None,
        u32_of_text(seq!['-'] + digits) is None,
{
    assert((seq!['+'] + digits).skip(1) =~= digits);
    if all_digits(digits) {
        assert(is_digit(digits[0]));
    }
    let negative = seq!['-'] + digits;
    assert(negative[0] == '-');
    assert(!is_digit(negative[0]));
}

/// Of the ASCII characters, blanks and the characters that move on to another line or column are
/// white space, and no others; nor is any letter, digit or mark.
pub proof fn law_white_space(c: char)
    requires
        c as u32 <= 127,
    ensures
        is_edge(Edge::Blank, c) <==> c == ' ' || c == '\t' || c == '\n' || c == '\r' || c as u32 == 11
            || c as u32 == 12,
        is_edge(Edge::Quote, c) <==> c == '\'',
{
}

proof fn lemma_trim_start(edge: Edge, a: Seq<char>, s: Seq<char>)
    requires
        forall|i: int| 0 <= i < a.len() ==> is_edge(edge, #[trigger] a[i]),
        s.len() > 0 ==> !is_edge(edge, s[0]),
    ensures
        trim_start(edge, a + s) == s,
    decreases a.len(),
{
    if a.len() == 0 {
        assert(a + s =~= s);
    } else {
        assert((a + s).drop_first() =~= a.drop_first() + s);
        assert(is_edge(edge, a[0]));
        lemma_trim_start(edge, a.drop_first(), s);
    }
}

proof fn lemma_trim_end(edge: Edge, s: Seq<char>, b: Seq<char>)
    requires
        forall|i: int| 0 <= i < b.len() ==> is_edge(edge, #[trigger] b[i]),
        s.len() > 0 ==> !is_edge(edge, s.last()),
    ensures
        trim_end(edge, s + b) == s,
    decreases b.len(),
{
    if b.len() == 0 {
        assert(s + b =~= s);
    } else {
        assert((s + b).drop_last() =~= s + b.drop_last());
        assert(is_edge(edge, b[b.len() - 1]));
        lemma_trim_end(edge, s, b.drop_last());
    }
}

/// What edges stand around a text that has none at its own ends, trimming gives the text.
pub proof fn law_trim_gives_what_is_between(
    edge: Edge,
    a: Seq<char>,
    s: Seq<char>,
    b: Seq<char>,
)
    requires
        forall|i: int| 0 <= i < a.len() ==> is_edge(edge, #[trigger] a[i]),
        forall|i: int| 0 <= i < b.len() ==> is_edge(edge, #[trigger] b[i]),
        s.len() > 0 ==> !is_edge(edge, s[0]) && !is_edge(edge, s.last()),
    ensures
        trimmed(edge, a + s + b) == s,
{
    if s.len() > 0 {
        assert(a + s + b =~= a + (s + b));
        lemma_trim_start(edge, a, s + b);
        lemma_trim_end(edge, s, b);
    } else {
        let all = a + s + b;
        assert forall|i: int| 0 <= i < all.len() implies is_edge(edge, #[trigger] all[i]) by {
            if i < a.len() {
                assert(all[i] == a[i]);
            } else {
                assert(all[i] == b[i - a.len()]);
            }
        }
        lemma_trim_start(edge, all, s);
        assert(all + s =~= all);
        assert(s =~= Seq::empty());
    }
}

/// Every text is what trimming leaves of it, between edges; and that has none at its own ends.
pub proof fn law_trim_takes_edges_only(edge: Edge, s: Seq<char>) -> (r: (int, int))
    ensures
        0 <= r.0 <= r.1 <= s.len(),
        trimmed(edge, s) == s.subrange(r.0, r.1),
        forall|i: int| 0 <= i < r.0 ==> is_edge(edge, #[trigger] s[i]),
        forall|i: int| r.1 <= i < s.len() ==> is_edge(edge, #[trigger] s[i]),
        r.0 < r.1 ==> !is_edge(edge, s[r.0]) && !is_edge(edge, s[r.1 - 1]),
{
    let i = lemma_edges_in_front(edge, s, 0);
    let j = lemma_edges_behind(edge, s, i, s.len() as int);
    let middle = s.subrange(i, j);
    let a = s.take(i);
    let b = s.skip(j);
    assert(s =~= a + middle + b);
    law_trim_gives_what_is_between(edge, a, middle, b);
    (i, j)
}

proof fn lemma_edges_in_front(edge: Edge, s: Seq<char>, from: int) -> (i: int)
    requires
        0 <= from <= s.len(),
        forall|k: int| 0 <= k < from ==> is_edge(edge, #[trigger] s[k]),
    ensures
        from <= i <= s.len(),
        forall|k: int| 0 <= k < i ==> is_edge(edge, #[trigger] s[k]),
        i < s.len() ==> !is_edge(edge, s[i]),
    decreases s.len() - from,
{
    if from < s.len() && is_edge(edge, s[from]) {
        lemma_edges_in_front(edge, s, from + 1)
    } else {
        from
    }
}

proof fn lemma_edges_behind(edge: Edge, s: Seq<char>, i: int, to: int) -> (j: int)
    requires
        0 <= i <= to <= s.len(),
        forall|k: int| to <= k < s.len() ==> is_edge(edge, #[trigger] s[k]),
    ensures
        i <= j <= to,
        forall|k: int| j <= k < s.len() ==> is_edge(edge, #[trigger] s[k]),
        j > i ==> !is_edge(edge, s[j - 1]),
    decreases to,
{
    if to > i && is_edge(edge, s[to - 1]) {
        lemma_edges_behind(edge, s, i, to - 1)
    } else {
        to
    }
}

/// Whether a line of a text starts at a place.
pub open spec fn starts_line(s: Seq<char>, i: int) -> bool {
    0 <= i <= s.len() && (i == 0 || s[i - 1] == '\n')
}

/// Whether `part` stands at a place of a text.
pub open spec fn stands_at(s: Seq<char>, part: Seq<char>, i: int) -> bool {
    0 <= i && i + part.len() <= s.len() && s.subrange(i, i + part.len()) == part
}

proof fn lemma_line_end_at(s: Seq<char>, from: int, to: int)
    requires
        0 <= from <= to <= s.len(),
        forall|k: int| from <= k < to ==> s[k] != '\n',
        to < s.len() ==> s[to] == '\n',
    ensures
        line_end(s, from) == to,
    decreases to - from,
{
    if from < to {
        lemma_line_end_at(s, from + 1, to);
    }
}

proof fn lemma_line_has_one_end(s: Seq<char>, from: int)
    requires
        0 <= from <= s.len(),
    ensures
        from <= line_end(s, from) <= s.len(),
        forall|k: int| from <= k < line_end(s, from) ==> s[k] != '\n',
        line_end(s, from) < s.len() ==> s[line_end(s, from)] == '\n',
    decreases s.len() - from,
{
    if from < s.len() && s[from] != '\n' {
        lemma_line_has_one_end(s, from + 1);
    }
}

proof fn lemma_prefix_of_line(s: Seq<char>, prefix: Seq<char>, from: int)
    requires
        0 <= from <= s.len(),
        starts_with(s.subrange(from, line_end(s, from)), prefix),
    ensures
        stands_at(s, prefix, from),
{
    lemma_line_has_one_end(s, from);
    let line = s.subrange(from, line_end(s, from));
    assert(s.subrange(from, from + prefix.len()) =~= line.take(prefix.len() as int));
}

proof fn lemma_first_line(s: Seq<char>, prefix: Seq<char>, from: int, i: int, j: int)
    requires
        prefix.len() > 0,
        starts_line(s, from),
        from <= i,
        starts_line(s, i),
        stands_at(s, prefix, i),
        i + prefix.len() <= j <= s.len(),
        forall|k: int| i <= k < j ==> s[k] != '\n',
        j < s.len() ==> s[j] == '\n',
        forall|k: int| from <= k < i && starts_line(s, k) ==> !#[trigger] stands_at(s, prefix, k),
    ensures
        first_after_prefix(s, prefix, from) == Some(s.subrange(i + prefix.len(), j)),
    decreases s.len() - from,
{
    lemma_line_has_one_end(s, from);
    let end = line_end(s, from);
    let line = s.subrange(from, end);
    if from == i {
        lemma_line_end_at(s, i, j);
        assert(line.take(prefix.len() as int) =~= s.subrange(i, i + prefix.len()));
        assert(line.skip(prefix.len() as int) =~= s.subrange(i + prefix.len(), j));
    } else {
        assert(!stands_at(s, prefix, from));
        if starts_with(line, prefix) {
            lemma_prefix_of_line(s, prefix, from);
        }
        assert(end < i);
        lemma_first_line(s, prefix, end + 1, i, j);
    }
}

/// What follows a prefix is found in the first line that starts with it, up to the end of that
/// line, wherever the line stands and whatever the others hold.
pub proof fn law_first_line_is_found(s: Seq<char>, prefix: Seq<char>, i: int, j: int)
    requires
        prefix.len() > 0,
        starts_line(s, i),
        stands_at(s, prefix, i),
        i + prefix.len() <= j <= s.len(),
        forall|k: int| i <= k < j ==> s[k] != '\n',
        j < s.len() ==> s[j] == '\n',
        forall|k: int| 0 <= k < i && starts_line(s, k) ==> !#[trigger] stands_at(s, prefix, k),
    ensures
        first_after_prefix(s, prefix, 0) == Some(s.subrange(i + prefix.len(), j)),
{
    lemma_first_line(s, prefix, 0, i, j);
}

proof fn lemma_no_line(s: Seq<char>, prefix: Seq<char>, from: int)
    requires
        prefix.len() > 0,
        starts_line(s, from),
        forall|k: int| from <= k && starts_line(s, k) ==> !#[trigger] stands_at(s, prefix, k),
    ensures
        first_after_prefix(s, prefix, from) is None,
    decreases s.len() - from,
{
    if from < s.len() {
        lemma_line_has_one_end(s, from);
        let end = line_end(s, from);
        assert(!stands_at(s, prefix, from));
        if starts_with(s.subrange(from, end), prefix) {
            lemma_prefix_of_line(s, prefix, from);
        }
        if end < s.len() {
            lemma_no_line(s, prefix, end + 1);
        }
    }
}

/// Where no line starts with a prefix, nothing is found.
pub proof fn law_no_line_is_found(s: Seq<char>, prefix: Seq<char>)
    requires
        prefix.len() > 0,
        forall|k: int| starts_line(s, k) ==> !#[trigger] stands_at(s, prefix, k),
    ensures
        first_after_prefix(s, prefix, 0) is None,
{
    lemma_no_line(s, prefix, 0);
}

/// Small and capital ASCII letters are the same where case is ignored, each with its own, and all
/// other characters are the same as themselves alone.
pub proof fn law_case_is_ignored(a: char, b: char)
    ensures
        ascii_lower(a) == ascii_lower(b) <==> {
            ||| a == b
            ||| 'A' <= a <= 'Z' && b as int == a as int + 32
            ||| 'A' <= b <= 'Z' && a as int == b as int + 32
        },
{
}

/// Texts that are joined in parts, with the separator between the parts too, are joined as a
/// whole; a text alone is joined as it is.
pub proof fn law_joined_in_parts(a: Seq<Seq<char>>, b: Seq<Seq<char>>, sep: Seq<char>, t: Seq<char>)
    ensures
        joined(seq![t], sep) == t,
        a.len() > 0 && b.len() > 0 ==> joined(a + b, sep) == joined(a, sep) + sep + joined(b, sep),
    decreases b.len(),
{
    if a.len() > 0 && b.len() == 1 {
        assert((a + b).drop_last() =~= a);
        assert((a + b).last() == b[0]);
    } else if a.len() > 0 && b.len() > 1 {
        law_joined_in_parts(a, b.drop_last(), sep, t);
        assert((a + b).drop_last() =~= a + b.drop_last());
        assert((a + b).last() == b.last());
        assert(joined(a, sep) + sep + (joined(b.drop_last(), sep) + sep + b.last()) =~= joined(
            a,
            sep,
        ) + sep + joined(b.drop_last(), sep) + sep + b.last());
    }
}

/// A number with a sign tells the number: two that are written alike are the same, and the minus
/// stands in front of those below zero and of no others.
pub proof fn law_signed_numbers_differ(a: int, b: int)
    ensures
        signed_decimal(a) == signed_decimal(b) ==> a == b,
        a >= 0 ==> signed_decimal(a) == decimal(a as nat),
        a < 0 ==> signed_decimal(a) == seq!['-'] + signed_decimal(-a),
{
    reveal_strlit("-");
    assert("-"@ =~= seq!['-']);
    law_decimal_value(if a < 0 {
        (-a) as nat
    } else {
        a as nat
    });
    law_decimal_value(if b < 0 {
        (-b) as nat
    } else {
        b as nat
    });
    if signed_decimal(a) == signed_decimal(b) {
        if a < 0 && b < 0 {
            assert(signed_decimal(a).skip(1) =~= decimal((-a) as nat));
            assert(signed_decimal(b).skip(1) =~= decimal((-b) as nat));
        } else if a < 0 {
            assert(signed_decimal(a)[0] == '-');
            assert(decimal(b as nat)[0] == '-');
        } else if b < 0 {
            assert(signed_decimal(b)[0] == '-');
            assert(decimal(a as nat)[0] == '-');
        }
    }
}

/// A number between two texts stands out: another number between the same texts gives another
/// text.
pub proof fn law_number_stands_out(a: Seq<char>, m: nat, n: nat, z: Seq<char>)
    requires
        a + decimal(m) + z == a + decimal(n) + z,
    ensures
        m == n,
{
    let s = a + decimal(m) + z;
    let t = a + decimal(n) + z;
    assert(s.subrange(a.len() as int, s.len() - z.len()) =~= decimal(m));
    assert(t.subrange(a.len() as int, t.len() - z.len()) =~= decimal(n));
    law_decimals_differ(m, n);
}

/// Beyond ASCII, white space is the blanks of various widths, the next-line character and the
/// separators of lines and paragraphs, and nothing else; a space without width is none.
pub proof fn law_wide_white_space(c: char)
    requires
        c as u32 > 127,
    ensures
        is_edge(Edge::Blank, c) <==> c == '\u{85}' || c == '\u{a0}' || c == '\u{1680}' || c
            == '\u{2000}' || c == '\u{2001}' || c == '\u{2002}' || c == '\u{2003}' || c == '\u{2004}'
            || c == '\u{2005}' || c == '\u{2006}' || c == '\u{2007}' || c == '\u{2008}' || c
            == '\u{2009}' || c == '\u{200a}' || c == '\u{2028}' || c == '\u{2029}' || c == '\u{202f}'
            || c == '\u{205f}' || c == '\u{3000}',
        !is_edge(Edge::Blank, '\u{200b}'),
        !is_edge(Edge::Quote, c),
{
}

} // verus!
