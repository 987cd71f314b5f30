//! Text building blocks: characters, decimal numbers, trimming, comparison,
//! and neutralizing control characters before text reaches a terminal.
//!
//! A text is modelled by the sequence of its Unicode scalar values.
use vstd::prelude::*;
use vstd::string::*;

verus! {

/// `String::push` appends one character to the end of the text.
pub assume_specification[ String::push ](s: &mut String, c: char)
    ensures
        final(s)@ == old(s)@.push(c),
;

/// The characters that stand for a list of texts.
pub open spec fn texts(v: Seq<String>) -> Seq<Seq<char>> {
    v.map_values(|s: String| s@)
}

/// The characters of an optional text.
pub open spec fn opt_text(o: Option<String>) -> Option<Seq<char>> {
    match o {
        Some(s) => Some(s@),
        None => None,
    }
}

/// The characters of a text, one element each.
pub fn chars_of(s: &str) -> (v: Vec<char>)
    ensures
        v@ == s@,
{
    let mut v: Vec<char> = Vec::new();
    for c in it: s.chars()
        invariant
            v@ == s@.take(it.index() as int),
            it.seq() == s@,
    {
        v.push(c);
    }
    v
}

/// The text made of `v[from..to]`.
pub fn text_of(v: &Vec<char>, from: usize, to: usize) -> (s: String)
    requires
        from <= to <= v.len(),
    ensures
        s@ == v@.subrange(from as int, to as int),
{
    let mut s = String::new();
    let mut i: usize = from;
    while i < to
        invariant
            from <= i <= to <= v.len(),
            s@ == v@.subrange(from as int, i as int),
        decreases to - i,
    {
        s.push(v[i]);
        i += 1;
    }
    s
}

/// Whether two texts are the same characters in the same order.
pub fn same_text(a: &str, b: &str) -> (res: bool)
    ensures
        res == (a@ == b@),
{
    let x = chars_of(a);
    let y = chars_of(b);
    if x.len() != y.len() {
        return false;
    }
    let mut i: usize = 0;
    while i < x.len()
        invariant
            i <= x.len(),
            x.len() == y.len(),
            x@ == a@,
            y@ == b@,
            forall|k: int| 0 <= k < i ==> x[k] == y[k],
        decreases x.len() - i,
    {
        if x[i] != y[i] {
            assert(a@[i as int] != b@[i as int]);
            return false;
        }
        i += 1;
    }
    assert(a@ =~= b@);
    true
}

/// A copy of an optional text.
pub fn copy_opt_text(o: &Option<String>) -> (res: Option<String>)
    ensures
        opt_text(res) == opt_text(*o),
{
    match o {
        Some(s) => Some(s.clone()),
        None => None,
    }
}

/// A copy of a list of texts.
pub fn copy_texts(v: &Vec<String>) -> (res: Vec<String>)
    ensures
        texts(res@) == texts(v@),
{
    let mut out: Vec<String> = Vec::new();
    let mut i: usize = 0;
    while i < v.len()
        invariant
            i <= v.len(),
            out.len() == i,
            forall|k: int| 0 <= k < i ==> #[trigger] out@[k]@ == v@[k]@,
        decreases v.len() - i,
    {
        out.push(v[i].clone());
        i += 1;
    }
    assert(texts(out@) =~= texts(v@));
    out
}

/// Appends copies of `more` to `list`.
pub fn append_texts(list: &mut Vec<String>, more: &Vec<String>)
    ensures
        texts(final(list)@) == texts(old(list)@) + texts(more@),
{
    let ghost before = list@;
    let mut i: usize = 0;
    while i < more.len()
        invariant
            i <= more.len(),
            list.len() == before.len() + i,
            forall|k: int| 0 <= k < before.len() ==> #[trigger] list@[k]@ == before[k]@,
            forall|k: int| 0 <= k < i ==> (#[trigger] list@[before.len() + k])@ == more@[k]@,
        decreases more.len() - i,
    {
        list.push(more[i].clone());
        i += 1;
    }
    assert forall|k: int| 0 <= k < list@.len() implies #[trigger] texts(list@)[k] == (texts(before)
        + texts(more@))[k] by {
        if k >= before.len() {
            assert(list@[before.len() + (k - before.len())]@ == more@[k - before.len()]@);
        }
    }
    assert(texts(list@) =~= texts(before) + texts(more@));
}

// ---------------------------------------------------------------------------
// Control characters
// ---------------------------------------------------------------------------

/// The characters of Unicode's general category Cc.
pub open spec fn control(c: char) -> bool {
    c as int <= 0x1f || 0x7f <= c as int <= 0x9f
}

/// What a character is shown as on one line: control characters become the
/// replacement character.
pub open spec fn clean_char(c: char) -> char {
    if control(c) {
        '\u{FFFD}'
    } else {
        c
    }
}

/// A text with every control character replaced.
pub open spec fn sanitized(s: Seq<char>) -> Seq<char> {
    s.map_values(|c: char| clean_char(c))
}

/// The code point of `c`.
pub fn code_point(c: char) -> (n: u32)
    ensures
        n as int == c as int,
{
    c as u32
}

/// Whether `c` is a control character.
pub fn is_control(c: char) -> (res: bool)
    ensures
        res == control(c),
{
    let n: u32 = c as u32;
    n <= 0x1f || (0x7f <= n && n <= 0x9f)
}

/// Replaces every control character with the replacement character, so that
/// the text can neither emit terminal control bytes nor break a line.
pub fn sanitize(s: &str) -> (res: String)
    ensures
        res@ == sanitized(s@),
{
    let v = chars_of(s);
    let mut out = String::new();
    let mut i: usize = 0;
    while i < v.len()
        invariant
            i <= v.len(),
            v@ == s@,
            out@ == sanitized(s@).take(i as int),
        decreases v.len() - i,
    {
        if is_control(v[i]) {
            out.push('\u{FFFD}');
        } else {
            out.push(v[i]);
        }
        i += 1;
    }
    assert(sanitized(s@).take(s@.len() as int) =~= sanitized(s@));
    out
}

/// Sanitized text has the length of the original and holds no control
/// character.
pub proof fn law_sanitized_is_inert(s: Seq<char>)
    ensures
        sanitized(s).len() == s.len(),
        forall|i: int| 0 <= i < s.len() ==> !control(#[trigger] sanitized(s)[i]),
{
}

/// Sanitizing twice is sanitizing once, and text without control characters
/// passes through untouched.
pub proof fn law_sanitized_is_idempotent(s: Seq<char>)
    ensures
        sanitized(sanitized(s)) == sanitized(s),
        (forall|i: int| 0 <= i < s.len() ==> !control(#[trigger] s[i])) ==> sanitized(s) == s,
{
    law_sanitized_is_inert(s);
    assert(sanitized(sanitized(s)) =~= sanitized(s));
    if forall|i: int| 0 <= i < s.len() ==> !control(#[trigger] s[i]) {
        assert(sanitized(s) =~= s);
    }
}

// ---------------------------------------------------------------------------
// White space
// ---------------------------------------------------------------------------

/// The characters with Unicode's White_Space property.
pub open spec fn white_space(c: char) -> bool {
    let n = c as int;
    ||| 0x09 <= n <= 0x0d
    ||| n == 0x20
    ||| n == 0x85
    ||| n == 0xa0
    ||| n == 0x1680
    ||| 0x2000 <= n <= 0x200a
    ||| n == 0x2028
    ||| n == 0x2029
    ||| n == 0x202f
    ||| n == 0x205f
    ||| n == 0x3000
}

/// Whether `c` is white space.
pub fn is_white_space(c: char) -> (res: bool)
    ensures
        res == white_space(c),
{
    let n: u32 = c as u32;
    (0x09 <= n && n <= 0x0d) || n == 0x20 || n == 0x85 || n == 0xa0 || n == 0x1680 || (0x2000 <= n
        && n <= 0x200a) || n == 0x2028 || n == 0x2029 || n == 0x202f || n == 0x205f || n == 0x3000
}

/// A text without its leading white space.
pub open spec fn trimmed_start(s: Seq<char>) -> Seq<char>
    decreases s.len(),
{
    if s.len() > 0 && white_space(s[0]) {
        trimmed_start(s.drop_first())
    } else {
        s
    }
}

/// A text without its trailing white space.
pub open spec fn trimmed_end(s: Seq<char>) -> Seq<char>
    decreases s.len(),
{
    if s.len() > 0 && white_space(s.last()) {
        trimmed_end(s.drop_last())
    } else {
        s
    }
}

/// A text without the white space at either end.
pub open spec fn trimmed(s: Seq<char>) -> Seq<char> {
    trimmed_end(trimmed_start(s))
}

/// Removes the white space at either end.
pub fn trim(s: &str) -> (res: String)
    ensures
        res@ == trimmed(s@),
{
    let v = chars_of(s);
    let mut i: usize = 0;
    assert(s@.subrange(0, s@.len() as int) =~= s@);
    while i < v.len() && is_white_space(v[i])
        invariant
            i <= v.len(),
            v@ == s@,
            trimmed_start(s@) == trimmed_start(s@.subrange(i as int, s@.len() as int)),
        decreases v.len() - i,
    {
        assert(s@.subrange(i as int, s@.len() as int).drop_first() =~= s@.subrange(
            i + 1,
            s@.len() as int,
        ));
        i += 1;
    }
    assert(trimmed_start(s@) == s@.subrange(i as int, s@.len() as int));
    let mut j: usize = v.len();
    assert(s@.subrange(i as int, j as int) =~= trimmed_start(s@));
    while i < j && is_white_space(v[j - 1])
        invariant
            i <= j <= v.len(),
            v@ == s@,
            trimmed(s@) == trimmed_end(s@.subrange(i as int, j as int)),
        decreases j,
    {
        assert(s@.subrange(i as int, j as int).last() == s@[j - 1]);
        assert(s@.subrange(i as int, j as int).drop_last() =~= s@.subrange(i as int, j - 1));
        j -= 1;
    }
    if i < j {
        assert(s@.subrange(i as int, j as int).last() == s@[j - 1]);
    }
    text_of(&v, i, j)
}

/// Whether a text holds nothing but white space.
pub fn is_blank(s: &str) -> (res: bool)
    ensures
        res == (trimmed(s@).len() == 0),
{
    let t = trim(s);
    chars_of(t.as_str()).len() == 0
}

// ---------------------------------------------------------------------------
// Decimal numbers
// ---------------------------------------------------------------------------

/// The character of the decimal digit `d`.
pub open spec fn digit(d: int) -> char {
    (('0' as int) + d) as char
}

/// Whether `c` is one of the ten ASCII digits.
pub open spec fn is_digit(c: char) -> bool {
    '0' as int <= c as int <= '9' as int
}

/// A number written in decimal, without leading zeros.
pub open spec fn decimal(n: nat) -> Seq<char>
    decreases n,
{
    if n < 10 {
        seq![digit(n as int)]
    } else {
        decimal(n / 10).push(digit((n % 10) as int))
    }
}

/// An integer written in decimal, with a minus sign where it is negative.
pub open spec fn signed_decimal(n: int) -> Seq<char> {
    if n < 0 {
        seq!['-'] + decimal((-n) as nat)
    } else {
        decimal(n as nat)
    }
}

/// The number that a run of digits stands for.
pub open spec fn digits_value(s: Seq<char>) -> nat
    decreases s.len(),
{
    if s.len() == 0 {
        0
    } else {
        digits_value(s.drop_last()) * 10 + ((s.last() as int) - ('0' as int)) as nat
    }
}

/// Whether every character is an ASCII digit.
pub open spec fn all_digits(s: Seq<char>) -> bool {
    forall|i: int| 0 <= i < s.len() ==> is_digit(#[trigger] s[i])
}

fn digit_of(d: u64) -> (c: char)
    requires
        d < 10,
    ensures
        c == digit(d as int),
{
    match d {
        0 => '0',
        1 => '1',
        2 => '2',
        3 => '3',
        4 => '4',
        5 => '5',
        6 => '6',
        7 => '7',
        8 => '8',
        _ => '9',
    }
}

/// Writes a number in decimal.
pub fn decimal_text(n: u64) -> (s: String)
    ensures
        s@ == decimal(n as nat),
    decreases n,
{
    if n < 10 {
        let mut s = String::new();
        s.push(digit_of(n));
        assert(s@ =~= decimal(n as nat));
        s
    } else {
        let mut s = decimal_text(n / 10);
        s.push(digit_of(n % 10));
        s
    }
}

/// Writes an integer in decimal.
pub fn signed_text(n: i64) -> (s: String)
    ensures
        s@ == signed_decimal(n as int),
{
    if n >= 0 {
        decimal_text(n as u64)
    } else {
        let mut s = String::new();
        s.push('-');
        let magnitude: u64 = ((-(n + 1)) as u64) + 1;
        let digits = decimal_text(magnitude);
        s.append(digits.as_str());
        assert(s@ =~= signed_decimal(n as int));
        s
    }
}

/// A decimal number is a non-empty run of digits that stands for that number.
pub proof fn law_decimal_reads_back(n: nat)
    ensures
        decimal(n).len() > 0,
        all_digits(decimal(n)),
        digits_value(decimal(n)) == n,
    decreases n,
{
    if n < 10 {
        let s = seq![digit(n as int)];
        assert(s.drop_last() =~= Seq::<char>::empty());
        reveal_with_fuel(digits_value, 2);
    } else {
        law_decimal_reads_back(n / 10);
        let s = decimal(n / 10).push(digit((n % 10) as int));
        assert(s.drop_last() =~= decimal(n / 10));
    }
}

/// Different numbers are written differently.
pub proof fn law_decimal_is_injective(m: nat, n: nat)
    ensures
        decimal(m) == decimal(n) ==> m == n,
{
    law_decimal_reads_back(m);
    law_decimal_reads_back(n);
}

/// What reading an unsigned 64-bit number gives: an optional plus sign, then
/// one or more digits, and a value that fits.
pub open spec fn parsed_u64(s: Seq<char>) -> Option<u64> {
    let body = if s.len() > 0 && s[0] == '+' {
        s.drop_first()
    } else {
        s
    };
    if body.len() > 0 && all_digits(body) && digits_value(body) <= u64::MAX {
        Some(digits_value(body) as u64)
    } else {
        None
    }
}

proof fn lemma_digits_value_monotonic(s: Seq<char>, k: int)
    requires
        0 <= k <= s.len(),
        all_digits(s),
    ensures
        digits_value(s.take(k)) <= digits_value(s),
    decreases s.len(),
{
    if k == s.len() {
        assert(s.take(k) =~= s);
    } else {
        assert(s.drop_last().take(k) =~= s.take(k));
        lemma_digits_value_monotonic(s.drop_last(), k);
    }
}

/// Reads an unsigned 64-bit number.
pub fn parse_u64(s: &str) -> (res: Option<u64>)
    ensures
        res == parsed_u64(s@),
{
    let v = chars_of(s);
    let start: usize = if v.len() > 0 && v[0] == '+' {
        1
    } else {
        0
    };
    let ghost body = s@.subrange(start as int, s@.len() as int);
    assert(body =~= if s@.len() > 0 && s@[0] == '+' {
        s@.drop_first()
    } else {
        s@
    });
    if v.len() == start {
        return None;
    }
    let mut value: u64 = 0;
    let mut i: usize = start;
    assert(body.take(0) =~= Seq::<char>::empty());
    while i < v.len()
        invariant
            start <= i <= v.len(),
            start <= 1,
            v@ == s@,
            body == s@.subrange(start as int, s@.len() as int),
            all_digits(body.take(i - start)),
            value == digits_value(body.take(i - start)),
            parsed_u64(s@) == (if body.len() > 0 && all_digits(body) && digits_value(body)
                <= u64::MAX {
                Some(digits_value(body) as u64)
            } else {
                None
            }),
        decreases v.len() - i,
    {
        let n: u32 = code_point(v[i]);
        let ghost k = i - start;
        assert(body[k] == s@[i as int]);
        if n < 48 || n > 57 {
            assert(!is_digit(body[k]));
            return None;
        }
        let d: u64 = (n - 48) as u64;
        assert(is_digit(body[k]));
        assert(body.take(k + 1).drop_last() =~= body.take(k));
        assert(body.take(k + 1).last() == body[k]);
        assert(digits_value(body.take(k + 1)) == value * 10 + d);
        if value > (u64::MAX - d) / 10 {
            assert(value * 10 + d > u64::MAX);
            proof {
                if all_digits(body) {
                    lemma_digits_value_monotonic(body, k + 1);
                }
            }
            return None;
        }
        value = value * 10 + d;
        assert forall|j: int| 0 <= j < k + 1 implies is_digit(#[trigger] body.take(k + 1)[j]) by {
            if j < k {
                assert(body.take(k)[j] == body[j]);
            }
        }
        i += 1;
    }
    assert(body.take(body.len() as int) =~= body);
    Some(value)
}

// ---------------------------------------------------------------------------
// Order
// ---------------------------------------------------------------------------

/// Lexicographic order by code point: a proper prefix comes first.
pub open spec fn text_less(a: Seq<char>, b: Seq<char>) -> bool
    decreases a.len(),
{
    if b.len() == 0 {
        false
    } else if a.len() == 0 {
        true
    } else if a[0] != b[0] {
        (a[0] as int) < (b[0] as int)
    } else {
        text_less(a.drop_first(), b.drop_first())
    }
}

/// Whether `a` comes strictly before `b`.
pub fn is_less(a: &str, b: &str) -> (res: bool)
    ensures
        res == text_less(a@, b@),
{
    let x = chars_of(a);
    let y = chars_of(b);
    let mut i: usize = 0;
    assert(a@.skip(0) =~= a@);
    assert(b@.skip(0) =~= b@);
    while i < x.len() && i < y.len() && x[i] == y[i]
        invariant
            i <= x.len(),
            i <= y.len(),
            x@ == a@,
            y@ == b@,
            text_less(a@, b@) == text_less(a@.skip(i as int), b@.skip(i as int)),
        decreases x.len() - i,
    {
        assert(a@.skip(i as int).drop_first() =~= a@.skip(i + 1));
        assert(b@.skip(i as int).drop_first() =~= b@.skip(i + 1));
        i += 1;
    }
    if i >= y.len() {
        false
    } else if i >= x.len() {
        true
    } else {
        assert(a@.skip(i as int)[0] == a@[i as int]);
        assert(b@.skip(i as int)[0] == b@[i as int]);
        x[i] < y[i]
    }
}

/// The order is total and strict.
pub proof fn lemma_text_less_total(a: Seq<char>, b: Seq<char>)
    ensures
        !(text_less(a, b) && text_less(b, a)),
        text_less(a, b) || text_less(b, a) || a == b,
        !text_less(a, a),
    decreases a.len(),
{
    if a.len() > 0 && b.len() > 0 && a[0] == b[0] {
        lemma_text_less_total(a.drop_first(), b.drop_first());
        if a.drop_first() == b.drop_first() {
            assert(a =~= seq![a[0]] + a.drop_first());
            assert(b =~= seq![b[0]] + b.drop_first());
        }
    } else if a.len() > 0 {
        lemma_text_less_total(a.drop_first(), a.drop_first());
    }
    if a.len() == 0 && b.len() == 0 {
        assert(a =~= b);
    }
    if a.len() > 0 {
        lemma_text_less_total(a.drop_first(), a.drop_first());
    }
}

/// The order is transitive.
pub proof fn lemma_text_less_transitive(a: Seq<char>, b: Seq<char>, c: Seq<char>)
    requires
        text_less(a, b),
        text_less(b, c),
    ensures
        text_less(a, c),
    decreases a.len(),
{
    if a.len() > 0 && b.len() > 0 && c.len() > 0 && a[0] == b[0] && b[0] == c[0] {
        lemma_text_less_transitive(a.drop_first(), b.drop_first(), c.drop_first());
    }
}

/// The first character in which two texts differ decides their order, by code
/// point; where there is none, the shorter text comes first.
pub proof fn law_the_first_difference_decides(a: Seq<char>, b: Seq<char>, k: int)
    requires
        0 <= k <= a.len(),
        k <= b.len(),
        forall|i: int| 0 <= i < k ==> a[i] == b[i],
    ensures
        k == a.len() && k < b.len() ==> text_less(a, b) && !text_less(b, a),
        k < a.len() && k < b.len() && (a[k] as int) < (b[k] as int) ==> text_less(a, b)
            && !text_less(b, a),
        k == a.len() && k == b.len() ==> !text_less(a, b) && !text_less(b, a),
    decreases k,
{
    if k > 0 {
        assert(a[0] == b[0]);
        let (x, y) = (a.drop_first(), b.drop_first());
        assert forall|i: int| 0 <= i < k - 1 implies x[i] == y[i] by {
            assert(a[i + 1] == b[i + 1]);
        }
        law_the_first_difference_decides(x, y, k - 1);
        if k < a.len() {
            assert(x[k - 1] == a[k]);
        }
        if k < b.len() {
            assert(y[k - 1] == b[k]);
        }
    }
}

/// Sanitizing works on each character by itself: a control character becomes
/// the replacement character, and any other one stays.
pub proof fn law_sanitizing_replaces_control_characters(s: Seq<char>, i: int)
    requires
        0 <= i < s.len(),
    ensures
        sanitized(s)[i] == s[i] || sanitized(s)[i] == '\u{FFFD}',
        sanitized(s)[i] == s[i] <==> !(s[i] as int <= 0x1f || 0x7f <= s[i] as int <= 0x9f),
{
}

proof fn lemma_trimmed_start(s: Seq<char>) -> (n: int)
    ensures
        0 <= n <= s.len(),
        trimmed_start(s) == s.skip(n),
        forall|i: int| 0 <= i < n ==> white_space(#[trigger] s[i]),
        n < s.len() ==> !white_space(s[n]),
    decreases s.len(),
{
    if s.len() > 0 && white_space(s[0]) {
        let rest = s.drop_first();
        let m = lemma_trimmed_start(rest);
        assert(rest.skip(m) =~= s.skip(m + 1));
        assert forall|i: int| 0 <= i < m + 1 implies white_space(#[trigger] s[i]) by {
            if i > 0 {
                assert(rest[i - 1] == s[i]);
            }
        }
        if m + 1 < s.len() {
            assert(rest[m] == s[m + 1]);
        }
        m + 1
    } else {
        assert(s.skip(0) =~= s);
        0
    }
}

proof fn lemma_trimmed_end(s: Seq<char>) -> (n: int)
    ensures
        0 <= n <= s.len(),
        trimmed_end(s) == s.take(n),
        forall|i: int| n <= i < s.len() ==> white_space(#[trigger] s[i]),
        n > 0 ==> !white_space(s[n - 1]),
    decreases s.len(),
{
    if s.len() > 0 && white_space(s.last()) {
        let rest = s.drop_last();
        let m = lemma_trimmed_end(rest);
        assert(rest.take(m) =~= s.take(m));
        assert forall|i: int| m <= i < s.len() implies white_space(#[trigger] s[i]) by {
            if i < rest.len() {
                assert(rest[i] == s[i]);
            }
        }
        if m > 0 {
            assert(rest[m - 1] == s[m - 1]);
        }
        m
    } else {
        assert(s.take(s.len() as int) =~= s);
        s.len() as int
    }
}

/// Trimming takes white space away at both ends and nothing else: what is left
/// neither starts nor ends in white space.
pub proof fn law_trimming_takes_only_the_ends(s: Seq<char>)
    ensures
        exists|i: int, j: int|
            0 <= i <= j <= s.len() && trimmed(s) == #[trigger] s.subrange(i, j) && (forall|k: int|
                0 <= k < s.len() && !(i <= k < j) ==> white_space(#[trigger] s[k])),
        trimmed(s).len() > 0 ==> !white_space(trimmed(s)[0]) && !white_space(trimmed(s).last()),
{
    let i = lemma_trimmed_start(s);
    let rest = s.skip(i);
    let n = lemma_trimmed_end(rest);
    let j = i + n;
    assert(rest.take(n) =~= s.subrange(i, j));
    assert forall|k: int| 0 <= k < s.len() && !(i <= k < j) implies white_space(
        #[trigger] s[k],
    ) by {
        if k >= j {
            assert(rest[k - i] == s[k]);
        }
    }
    if n > 0 {
        assert(trimmed(s)[0] == s[i]);
        assert(trimmed(s).last() == rest[n - 1]);
    }
}

/// Reading takes every number in decimal that fits, with or without a plus sign
/// and with leading zeros, and nothing that is not made of digits.
pub proof fn law_a_written_number_is_read_back(n: nat, s: Seq<char>)
    ensures
        n <= u64::MAX ==> parsed_u64(decimal(n)) == Some(n as u64),
        n > u64::MAX ==> parsed_u64(decimal(n)) is None,
        all_digits(s) && s.len() > 0 ==> parsed_u64(seq!['+'] + s) == parsed_u64(s)
            && parsed_u64(seq!['0'] + s) == parsed_u64(s),
        parsed_u64(s) is Some ==> s.len() > 0 && all_digits(s.drop_first()) && (is_digit(s[0])
            || s[0] == '+' && s.len() > 1),
{
    law_decimal_reads_back(n);
    assert(is_digit(decimal(n)[0]));
    if all_digits(s) && s.len() > 0 {
        assert(is_digit(s[0]));
        assert((seq!['+'] + s).drop_first() =~= s);
        let t = seq!['0'] + s;
        assert forall|i: int| 0 <= i < t.len() implies is_digit(#[trigger] t[i]) by {
            if i > 0 {
                assert(t[i] == s[i - 1]);
            }
        }
        lemma_leading_zero(s);
    }
    if parsed_u64(s) is Some && s[0] != '+' {
        assert forall|i: int| 0 <= i < s.drop_first().len() implies is_digit(
            #[trigger] s.drop_first()[i],
        ) by {
            assert(s.drop_first()[i] == s[i + 1]);
        }
    }
}

proof fn lemma_leading_zero(s: Seq<char>)
    ensures
        digits_value(seq!['0'] + s) == digits_value(s),
    decreases s.len(),
{
    let t = seq!['0'] + s;
    if s.len() == 0 {
        assert(t.drop_last() =~= s);
        reveal_with_fuel(digits_value, 2);
    } else {
        lemma_leading_zero(s.drop_last());
        assert(t.drop_last() =~= seq!['0'] + s.drop_last());
        assert(t.last() == s.last());
    }
}

/// An integer is written with a minus sign exactly where it is negative, and
/// its digits stand for its size.
pub proof fn law_a_sign_is_written_for_negative_numbers(n: int)
    ensures
        signed_decimal(n).len() > 0,
        n < 0 <==> signed_decimal(n)[0] == '-',
        n < 0 ==> digits_value(signed_decimal(n).drop_first()) == -n && all_digits(
            signed_decimal(n).drop_first(),
        ),
        n >= 0 ==> digits_value(signed_decimal(n)) == n && all_digits(signed_decimal(n)),
{
    let size = if n < 0 {
        (-n) as nat
    } else {
        n as nat
    };
    law_decimal_reads_back(size);
    if n < 0 {
        assert(signed_decimal(n).drop_first() =~= decimal(size));
    } else {
        assert(is_digit(signed_decimal(n)[0]));
    }
}

// ---------------------------------------------------------------------------
// Lines
// ---------------------------------------------------------------------------

/// The lines of a text: what stands between its line feeds. A text that ends in
/// a line feed has an empty last line.
pub open spec fn lines_of(s: Seq<char>) -> Seq<Seq<char>>
    decreases s.len(),
{
    if s.len() == 0 {
        seq![seq![]]
    } else {
        let before = lines_of(s.drop_last());
        if s.last() == '\n' {
            before.push(seq![])
        } else {
            before.drop_last().push(before.last().push(s.last()))
        }
    }
}

/// A line feed parts the lines before it from those after it.
pub proof fn lemma_lines_parted(a: Seq<char>, b: Seq<char>)
    ensures
        lines_of(a.push('\n') + b) == lines_of(a) + lines_of(b),
        lines_of(b).len() > 0,
    decreases b.len(),
{
    let s = a.push('\n') + b;
    if b.len() == 0 {
        assert(s =~= a.push('\n'));
        assert(s.drop_last() =~= a);
        assert(lines_of(s) =~= lines_of(a) + lines_of(b));
    } else {
        let c = b.drop_last();
        lemma_lines_parted(a, c);
        assert(s.drop_last() =~= a.push('\n') + c);
        assert(s.last() == b.last());
        let whole = lines_of(a) + lines_of(c);
        assert(whole.last() == lines_of(c).last());
        assert(lines_of(s) =~= lines_of(a) + lines_of(b));
    }
}

/// A text without line feeds is one line.
pub proof fn lemma_one_line(s: Seq<char>)
    requires
        !s.contains('\n'),
    ensures
        lines_of(s) == seq![s],
    decreases s.len(),
{
    if s.len() == 0 {
        assert(s =~= seq![]);
        assert(lines_of(s) =~= seq![s]);
    } else {
        let rest = s.drop_last();
        assert forall|i: int| 0 <= i < rest.len() implies rest[i] != '\n' by {
            assert(s.contains(s[i]));
        }
        assert(s.contains(s[s.len() - 1]));
        lemma_one_line(rest);
        assert(rest.push(s.last()) =~= s);
        assert(lines_of(s) =~= seq![s]);
    }
}

/// Sanitized text is one line.
pub proof fn lemma_sanitized_is_one_line(s: Seq<char>)
    ensures
        !sanitized(s).contains('\n'),
{
    law_sanitized_is_inert(s);
}

proof fn lemma_split_at_a_dot(a: Seq<char>, x: Seq<char>, b: Seq<char>, y: Seq<char>)
    requires
        all_digits(a),
        all_digits(b),
        a + seq!['.'] + x == b + seq!['.'] + y,
    ensures
        a == b,
        x == y,
{
    let l = a + seq!['.'] + x;
    let r = b + seq!['.'] + y;
    if a.len() < b.len() {
        assert(l[a.len() as int] == '.');
        assert(r[a.len() as int] == b[a.len() as int]);
        assert(is_digit(b[a.len() as int]));
    }
    if b.len() < a.len() {
        assert(r[b.len() as int] == '.');
        assert(l[b.len() as int] == a[b.len() as int]);
        assert(is_digit(a[b.len() as int]));
    }
    assert(a =~= l.take(a.len() as int));
    assert(b =~= r.take(b.len() as int));
    assert(x =~= l.skip(a.len() as int + 1));
    assert(y =~= r.skip(b.len() as int + 1));
}

/// A numbered name gives its two numbers back: the same name means the same
/// numbers.
pub proof fn lemma_same_numbers(head: Seq<char>, p: nat, c: nat, q: nat, d: nat)
    requires
        head + decimal(p) + "."@ + decimal(c) + ".tmp"@ == head + decimal(q) + "."@ + decimal(d)
            + ".tmp"@,
    ensures
        p == q,
        c == d,
{
    reveal_strlit(".");
    reveal_strlit(".tmp");
    let l = head + decimal(p) + "."@ + decimal(c) + ".tmp"@;
    let r = head + decimal(q) + "."@ + decimal(d) + ".tmp"@;
    let n = head.len() as int;
    assert(l.skip(n) =~= decimal(p) + seq!['.'] + (decimal(c) + ".tmp"@));
    assert(r.skip(n) =~= decimal(q) + seq!['.'] + (decimal(d) + ".tmp"@));
    law_decimal_reads_back(p);
    law_decimal_reads_back(q);
    lemma_split_at_a_dot(decimal(p), decimal(c) + ".tmp"@, decimal(q), decimal(d) + ".tmp"@);
    let (x, y) = (decimal(c) + ".tmp"@, decimal(d) + ".tmp"@);
    assert(x.take(x.len() - 4) =~= decimal(c));
    assert(y.take(y.len() - 4) =~= decimal(d));
    law_decimal_is_injective(p, q);
    law_decimal_is_injective(c, d);
}

/// The characters that count as white space, in the order of their code points.
pub open spec fn white_space_characters() -> Seq<char> {
    "\t\n\u{b}\u{c}\r \u{85}\u{a0}\u{1680}\u{2000}\u{2001}\u{2002}\u{2003}\u{2004}\u{2005}\u{2006}\u{2007}\u{2008}\u{2009}\u{200a}\u{2028}\u{2029}\u{202f}\u{205f}\u{3000}"@
}

/// White space is exactly these characters.
pub proof fn law_these_characters_are_white_space(c: char)
    ensures
        white_space(c) <==> white_space_characters().contains(c),
{
    reveal_strlit(
        "\t\n\u{b}\u{c}\r \u{85}\u{a0}\u{1680}\u{2000}\u{2001}\u{2002}\u{2003}\u{2004}\u{2005}\u{2006}\u{2007}\u{2008}\u{2009}\u{200a}\u{2028}\u{2029}\u{202f}\u{205f}\u{3000}",
    );
    let all = white_space_characters();
    if white_space(c) {
        let n = c as int;
        let k = if n <= 0x0d {
            n - 9
        } else if n == 0x20 {
            5
        } else if n == 0x85 {
            6
        } else if n == 0xa0 {
            7
        } else if n == 0x1680 {
            8
        } else if n <= 0x200a {
            n - 0x2000 + 9
        } else if n == 0x2028 {
            20
        } else if n == 0x2029 {
            21
        } else if n == 0x202f {
            22
        } else if n == 0x205f {
            23
        } else {
            24
        };
        assert(all[k] == c);
    }
}

/// The digits in the order of their values.
pub proof fn law_the_digits_are_decimal(d: int)
    requires
        0 <= d < 10,
    ensures
        digit(d) == "0123456789"@[d],
        is_digit(digit(d)),
{
    reveal_strlit("0123456789");
}

} // verus!
