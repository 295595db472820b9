//! Decimal formatting and string building with exact character-level models.

use vstd::prelude::*;
use vstd::utf8::{encode_scalar, encode_utf8};

verus! {

/// The ASCII digit for `d` (0 to 9).
pub open spec fn digit_char(d: int) -> char {
    if d == 0 {
        '0'
    } else if d == 1 {
        '1'
    } else if d == 2 {
        '2'
    } else if d == 3 {
        '3'
    } else if d == 4 {
        '4'
    } else if d == 5 {
        '5'
    } else if d == 6 {
        '6'
    } else if d == 7 {
        '7'
    } else if d == 8 {
        '8'
    } else {
        '9'
    }
}

/// Decimal digits of `n`, most significant first, without leading zeros.
pub open spec fn decimal(n: nat) -> Seq<char>
    decreases n,
{
    if n < 10 {
        seq![digit_char(n as int)]
    } else {
        decimal(n / 10).push(digit_char((n % 10) as int))
    }
}

/// `n` in decimal, padded on the left with zeros to at least `width` characters.
pub open spec fn zero_padded(n: nat, width: int) -> Seq<char> {
    let digits = decimal(n);
    let pad = if width > digits.len() {
        width - digits.len()
    } else {
        0
    };
    Seq::new(pad as nat, |i: int| '0') + digits
}

/// `n` in decimal with a leading minus sign when negative.
pub open spec fn signed_decimal(n: int) -> Seq<char> {
    if n < 0 {
        seq!['-'] + decimal((-n) as nat)
    } else {
        decimal(n as nat)
    }
}

/// `n` in decimal, zero padded after the sign to at least `width` characters
/// in all.
pub open spec fn signed_zero_padded(n: int, width: int) -> Seq<char> {
    if n < 0 {
        seq!['-'] + zero_padded((-n) as nat, width - 1)
    } else {
        zero_padded(n as nat, width)
    }
}

/// Appends one character with std's `String::push`. Trusted: the contract
/// claims that the text afterwards is the old text followed by `c`.
#[verifier::external_body]
pub(crate) fn push_char(text: &mut String, c: char)
    ensures
        final(text)@ == old(text)@.push(c),
{
    text.push(c);
}

fn digit(d: u64) -> (c: char)
    requires
        d < 10,
    ensures
        c == digit_char(d as int),
{
    if d == 0 {
        '0'
    } else if d == 1 {
        '1'
    } else if d == 2 {
        '2'
    } else if d == 3 {
        '3'
    } else if d == 4 {
        '4'
    } else if d == 5 {
        '5'
    } else if d == 6 {
        '6'
    } else if d == 7 {
        '7'
    } else if d == 8 {
        '8'
    } else {
        '9'
    }
}

pub open spec fn pow10(k: nat) -> nat
    decreases k,
{
    if k == 0 {
        1
    } else {
        10 * pow10((k - 1) as nat)
    }
}

proof fn lemma_decimal_len_bound(n: nat, k: nat)
    requires
        k >= 1,
        n < pow10(k),
    ensures
        1 <= decimal(n).len() <= k,
    decreases k,
{
    if n >= 10 {
        if k == 1 {
            assert(pow10(1) == 10) by {
                reveal_with_fuel(pow10, 2);
            }
        }
        let p = pow10((k - 1) as nat);
        assert(n / 10 < p) by (nonlinear_arith)
            requires
                n < 10 * p,
        ;
        lemma_decimal_len_bound(n / 10, (k - 1) as nat);
    }
}

/// Number of decimal digits of `n`.
pub fn decimal_len(n: u64) -> (r: usize)
    ensures
        r as int == decimal(n as nat).len(),
        1 <= r <= 20,
    decreases n,
{
    proof {
        assert(pow10(20) == 100000000000000000000nat) by {
            reveal_with_fuel(pow10, 21);
        }
        lemma_decimal_len_bound(n as nat, 20);
    }
    if n < 10 {
        1
    } else {
        decimal_len(n / 10) + 1
    }
}

/// Appends `n` in decimal.
pub fn push_decimal(text: &mut String, n: u64)
    ensures
        final(text)@ == old(text)@ + decimal(n as nat),
    decreases n,
{
    if n >= 10 {
        push_decimal(text, n / 10);
    }
    push_char(text, digit(n % 10));
    proof {
        if n < 10 {
            assert(decimal(n as nat) =~= seq![digit_char(n as int)]);
        }
    }
    assert(final(text)@ =~= old(text)@ + decimal(n as nat));
}

/// Appends `n` in decimal, zero padded to at least `width` characters.
pub fn push_zero_padded(text: &mut String, n: u64, width: usize)
    ensures
        final(text)@ == old(text)@ + zero_padded(n as nat, width as int),
{
    let digits = decimal_len(n);
    let ghost start = text@;
    let mut pad: usize = 0;
    let target = if width > digits {
        width - digits
    } else {
        0
    };
    while pad < target
        invariant
            0 <= pad <= target,
            text@ == start + Seq::new(pad as nat, |i: int| '0'),
        decreases target - pad,
    {
        push_char(text, '0');
        pad = pad + 1;
        assert(text@ =~= start + Seq::new(pad as nat, |i: int| '0'));
    }
    push_decimal(text, n);
    assert(text@ =~= start + zero_padded(n as nat, width as int));
}

/// Appends `n` in decimal with a leading minus sign when negative.
pub fn push_signed(text: &mut String, n: i64)
    ensures
        final(text)@ == old(text)@ + signed_decimal(n as int),
{
    if n < 0 {
        push_char(text, '-');
        let magnitude = (0i128 - n as i128) as u64;
        push_decimal(text, magnitude);
        assert(final(text)@ =~= old(text)@ + signed_decimal(n as int));
    } else {
        push_decimal(text, n as u64);
    }
}

/// Appends `n`, zero padded after its sign to at least `width` characters.
pub fn push_signed_zero_padded(text: &mut String, n: i64, width: usize)
    requires
        width >= 1,
    ensures
        final(text)@ == old(text)@ + signed_zero_padded(n as int, width as int),
{
    if n < 0 {
        push_char(text, '-');
        let magnitude = (0i128 - n as i128) as u64;
        push_zero_padded(text, magnitude, width - 1);
        assert(final(text)@ =~= old(text)@ + signed_zero_padded(n as int, width as int));
    } else {
        push_zero_padded(text, n as u64, width);
    }
}


/// Characters with the Unicode `White_Space` property.
pub open spec fn is_space(c: char) -> bool {
    let n = c as u32;
    ||| 0x09 <= n <= 0x0D
    ||| n == 0x20
    ||| n == 0x85
    ||| n == 0xA0
    ||| n == 0x1680
    ||| 0x2000 <= n <= 0x200A
    ||| n == 0x2028
    ||| n == 0x2029
    ||| n == 0x202F
    ||| n == 0x205F
    ||| n == 0x3000
}

/// Whether `c` has the Unicode `White_Space` property (as `char::is_whitespace`).
pub fn is_whitespace(c: char) -> (r: bool)
    ensures
        r == is_space(c),
{
    let n = c as u32;
    (0x09 <= n && n <= 0x0D) || n == 0x20 || n == 0x85 || n == 0xA0 || n == 0x1680 || (0x2000 <= n
        && n <= 0x200A) || n == 0x2028 || n == 0x2029 || n == 0x202F || n == 0x205F || n == 0x3000
}

/// Length of the run of non-space characters that starts `s`.
pub open spec fn word_len(s: Seq<char>) -> nat
    decreases s.len(),
{
    if s.len() == 0 || is_space(s[0]) {
        0
    } else {
        1 + word_len(s.drop_first())
    }
}

/// The words of `s` (maximal runs of non-space characters) joined by single
/// spaces, as `split_whitespace` followed by `join(" ")`.
pub open spec fn collapse(s: Seq<char>) -> Seq<char>
    decreases s.len(),
{
    if s.len() == 0 {
        seq![]
    } else if is_space(s[0]) {
        collapse(s.drop_first())
    } else {
        let k = word_len(s);
        proof {
            lemma_word_len_bound(s);
            assert(k == 1 + word_len(s.drop_first()));
        }
        let rest = collapse(s.skip(k as int));
        if rest.len() == 0 {
            s.take(k as int)
        } else {
            s.take(k as int) + seq![' '] + rest
        }
    }
}

/// Index of the first `c` in `s`, or the length of `s` when there is none.
pub open spec fn first_index(s: Seq<char>, c: char) -> int
    decreases s.len(),
{
    if s.len() == 0 {
        0
    } else if s[0] == c {
        0
    } else {
        1 + first_index(s.drop_first(), c)
    }
}

/// `first_index` lies within the text and finds the first occurrence.
pub proof fn lemma_first_index(s: Seq<char>, c: char)
    ensures
        0 <= first_index(s, c) <= s.len(),
        first_index(s, c) < s.len() ==> s[first_index(s, c)] == c,
        forall|i: int| 0 <= i < first_index(s, c) ==> #[trigger] s[i] != c,
    decreases s.len(),
{
    if s.len() > 0 && s[0] != c {
        lemma_first_index(s.drop_first(), c);
        assert forall|i: int| 0 <= i < first_index(s, c) implies #[trigger] s[i] != c by {
            if i > 0 {
                assert(s[i] == s.drop_first()[i - 1]);
            }
        }
    }
}

/// The pieces of `s` between occurrences of `sep`, empty pieces included, as
/// `str::split` with a character separator.
pub open spec fn split_on(s: Seq<char>, sep: char) -> Seq<Seq<char>>
    decreases s.len(),
{
    let k = first_index(s, sep);
    proof {
        lemma_first_index(s, sep);
    }
    if k >= s.len() {
        seq![s]
    } else {
        seq![s.take(k)] + split_on(s.skip(k + 1), sep)
    }
}

/// Whether `needle` occurs in `haystack` as a contiguous run.
pub open spec fn occurs_in(needle: Seq<char>, haystack: Seq<char>) -> bool {
    exists|i: int| 0 <= i && i + needle.len() <= haystack.len() && #[trigger] haystack.subrange(i, i + needle.len()) == needle
}

/// Lower-case mapping of a string as Unicode defines it (std `str::to_lowercase`).
pub uninterp spec fn lowercase(text: Seq<char>) -> Seq<char>;

/// Lower-cases text with std's `str::to_lowercase`. Trusted: the contract
/// claims only that the result is `lowercase` of the input, the same text
/// giving the same result; what Unicode's mapping does to each character
/// (it may change the length) is left unsaid.
#[verifier::external_body]
pub(crate) fn to_lowercase(text: &str) -> (r: String)
    ensures
        r@ == lowercase(text@),
{
    text.to_lowercase()
}

/// The characters of `text`, in order.
pub fn chars_of(text: &str) -> (r: Vec<char>)
    ensures
        r@ == text@,
{
    let length = text.unicode_len();
    let mut chars: Vec<char> = Vec::new();
    let mut index: usize = 0;
    while index < length
        invariant
            length as int == text@.len(),
            0 <= index <= length,
            chars@ == text@.take(index as int),
        decreases length - index,
    {
        chars.push(text.get_char(index));
        assert(text@.take(index as int + 1) =~= text@.take(index as int).push(text@[index as int]));
        index = index + 1;
    }
    assert(text@.take(length as int) =~= text@);
    chars
}

/// A string holding exactly `chars`.
pub fn string_of(chars: &Vec<char>) -> (r: String)
    ensures
        r@ == chars@,
{
    let mut text = String::new();
    let mut index: usize = 0;
    while index < chars.len()
        invariant
            0 <= index <= chars.len(),
            text@ == chars@.take(index as int),
        decreases chars.len() - index,
    {
        push_char(&mut text, chars[index]);
        assert(chars@.take(index as int + 1) =~= chars@.take(index as int).push(chars@[index as int]));
        index = index + 1;
    }
    assert(chars@.take(chars@.len() as int) =~= chars@);
    text
}

/// A word run stays within the text and ends at a space or the end.
pub proof fn lemma_word_len_bound(s: Seq<char>)
    ensures
        word_len(s) <= s.len(),
        forall|i: int| 0 <= i < word_len(s) ==> !is_space(#[trigger] s[i]),
        word_len(s) < s.len() ==> is_space(s[word_len(s) as int]),
    decreases s.len(),
{
    if s.len() > 0 && !is_space(s[0]) {
        lemma_word_len_bound(s.drop_first());
        assert forall|i: int| 0 <= i < word_len(s) implies !is_space(#[trigger] s[i]) by {
            if i > 0 {
                assert(s[i] == s.drop_first()[i - 1]);
            }
        }
    }
}

/// Length of the non-space run starting at `start`.
fn run_end(chars: &Vec<char>, start: usize) -> (end: usize)
    requires
        start <= chars.len(),
    ensures
        end == start + word_len(chars@.skip(start as int)),
        end <= chars.len(),
{
    let mut end = start;
    proof {
        lemma_word_len_bound(chars@.skip(start as int));
    }
    while end < chars.len() && !is_whitespace(chars[end])
        invariant
            start <= end <= chars.len(),
            end <= start + word_len(chars@.skip(start as int)),
            word_len(chars@.skip(start as int)) == (end - start) + word_len(chars@.skip(end as int)),
        decreases chars.len() - end,
    {
        assert(chars@.skip(end as int).drop_first() =~= chars@.skip(end as int + 1));
        end = end + 1;
    }
    proof {
        if end < chars.len() {
            assert(chars@.skip(end as int)[0] == chars@[end as int]);
        }
    }
    end
}

/// `collapse` of the characters from `start` on.
fn collapse_from(chars: &Vec<char>, start: usize) -> (r: Vec<char>)
    requires
        start <= chars.len(),
    ensures
        r@ == collapse(chars@.skip(start as int)),
    decreases chars.len() - start,
{
    let ghost s = chars@.skip(start as int);
    if start == chars.len() {
        assert(s.len() == 0);
        return Vec::new();
    }
    if is_whitespace(chars[start]) {
        assert(s.drop_first() =~= chars@.skip(start as int + 1));
        return collapse_from(chars, start + 1);
    }
    let end = run_end(chars, start);
    proof {
        assert(end > start) by {
            assert(word_len(s) == 1 + word_len(s.drop_first()));
        }
        assert(s.skip(word_len(s) as int) =~= chars@.skip(end as int));
    }
    let rest = collapse_from(chars, end);
    let mut out: Vec<char> = Vec::new();
    let mut index = start;
    while index < end
        invariant
            start <= index <= end <= chars.len(),
            out@ == chars@.subrange(start as int, index as int),
        decreases end - index,
    {
        out.push(chars[index]);
        assert(chars@.subrange(start as int, index as int + 1) =~= chars@.subrange(start as int, index as int).push(
            chars@[index as int],
        ));
        index = index + 1;
    }
    assert(out@ =~= s.take(word_len(s) as int));
    if rest.len() > 0 {
        out.push(' ');
        let mut index: usize = 0;
        let ghost word = out@;
        while index < rest.len()
            invariant
                0 <= index <= rest.len(),
                out@ == word + rest@.take(index as int),
            decreases rest.len() - index,
        {
            out.push(rest[index]);
            assert(rest@.take(index as int + 1) =~= rest@.take(index as int).push(rest@[index as int]));
            index = index + 1;
        }
        assert(rest@.take(rest@.len() as int) =~= rest@);
    }
    out
}

/// The words of `chars` joined by single spaces.
pub fn collapse_whitespace(chars: &Vec<char>) -> (r: Vec<char>)
    ensures
        r@ == collapse(chars@),
{
    assert(chars@.skip(0) =~= chars@);
    collapse_from(chars, 0)
}

/// Whether `needle` occurs in `haystack` as a contiguous run.
pub fn occurs(needle: &Vec<char>, haystack: &Vec<char>) -> (r: bool)
    ensures
        r == occurs_in(needle@, haystack@),
{
    if needle.len() > haystack.len() {
        return false;
    }
    let mut start: usize = 0;
    while start <= haystack.len() - needle.len()
        invariant
            needle.len() <= haystack.len(),
            0 <= start <= haystack.len() - needle.len() + 1,
            forall|i: int| 0 <= i < start ==> #[trigger] haystack@.subrange(i, i + needle@.len()) != needle@,
        decreases haystack.len() - start,
    {
        let mut offset: usize = 0;
        let mut same = true;
        while offset < needle.len()
            invariant
                start + needle.len() <= haystack.len(),
                0 <= offset <= needle.len(),
                same == (forall|j: int| 0 <= j < offset ==> haystack@[start + j] == needle@[j]),
            decreases needle.len() - offset,
        {
            if haystack[start + offset] != needle[offset] {
                same = false;
            }
            offset = offset + 1;
        }
        if same {
            assert(haystack@.subrange(start as int, start + needle@.len()) =~= needle@);
            return true;
        }
        proof {
            let j = choose|j: int| 0 <= j < needle@.len() && haystack@[start + j] != needle@[j];
            assert(haystack@.subrange(start as int, start + needle@.len())[j] != needle@[j]);
        }
        start = start + 1;
    }
    false
}


pub open spec fn is_digit_char(c: char) -> bool {
    '0' <= c && c <= '9'
}

/// Decimal text is one or more ASCII digits.
pub proof fn lemma_decimal_digits(n: nat)
    ensures
        decimal(n).len() >= 1,
        forall|i: int| 0 <= i < decimal(n).len() ==> is_digit_char(#[trigger] decimal(n)[i]),
    decreases n,
{
    if n >= 10 {
        lemma_decimal_digits(n / 10);
        let d = decimal(n / 10);
        assert forall|i: int| 0 <= i < decimal(n).len() implies is_digit_char(#[trigger] decimal(n)[i]) by {
            if i < d.len() {
                assert(decimal(n)[i] == d[i]);
            }
        }
    }
}

proof fn lemma_digit_char_injective(a: int, b: int)
    requires
        0 <= a < 10,
        0 <= b < 10,
        digit_char(a) == digit_char(b),
    ensures
        a == b,
{
}

/// Different numbers have different decimal text.
pub proof fn lemma_decimal_injective(n: nat, m: nat)
    requires
        decimal(n) == decimal(m),
    ensures
        n == m,
    decreases n,
{
    if n >= 10 {
        lemma_decimal_digits(n / 10);
    }
    if m >= 10 {
        lemma_decimal_digits(m / 10);
    }
    if n >= 10 && m >= 10 {
        assert(decimal(n).drop_last() =~= decimal(n / 10));
        assert(decimal(m).drop_last() =~= decimal(m / 10));
        lemma_decimal_injective(n / 10, m / 10);
        assert(decimal(n).last() == digit_char((n % 10) as int));
        assert(decimal(m).last() == digit_char((m % 10) as int));
        lemma_digit_char_injective((n % 10) as int, (m % 10) as int);
    } else if n < 10 && m < 10 {
        assert(decimal(n)[0] == digit_char(n as int));
        assert(decimal(m)[0] == digit_char(m as int));
        lemma_digit_char_injective(n as int, m as int);
    } else if n < 10 {
        assert(decimal(m).len() >= 2);
    } else {
        assert(decimal(n).len() >= 2);
    }
}

/// Two texts that start with digit runs followed by `sep`, a non-digit,
/// agree on those runs when they agree as a whole.
pub proof fn lemma_digit_runs_agree(x: Seq<char>, y: Seq<char>, sep: char, rest_x: Seq<char>, rest_y: Seq<char>)
    requires
        !is_digit_char(sep),
        forall|i: int| 0 <= i < x.len() ==> is_digit_char(#[trigger] x[i]),
        forall|i: int| 0 <= i < y.len() ==> is_digit_char(#[trigger] y[i]),
        x + seq![sep] + rest_x == y + seq![sep] + rest_y,
    ensures
        x == y,
        rest_x == rest_y,
{
    let whole = x + seq![sep] + rest_x;
    if x.len() < y.len() {
        assert(whole[x.len() as int] == sep);
        assert((y + seq![sep] + rest_y)[x.len() as int] == y[x.len() as int]);
    } else if y.len() < x.len() {
        assert((y + seq![sep] + rest_y)[y.len() as int] == sep);
        assert(whole[y.len() as int] == x[y.len() as int]);
    }
    assert(x =~= whole.take(x.len() as int));
    assert(y =~= (y + seq![sep] + rest_y).take(y.len() as int));
    assert(rest_x =~= whole.skip(x.len() as int + 1));
    assert(rest_y =~= (y + seq![sep] + rest_y).skip(y.len() as int + 1));
}


/// Length in bytes of the UTF-8 encoding of `text`.
pub open spec fn utf8_len(text: Seq<char>) -> nat {
    encode_utf8(text).len()
}

proof fn lemma_encode_concat(a: Seq<char>, b: Seq<char>)
    ensures
        encode_utf8(a + b) == encode_utf8(a) + encode_utf8(b),
    decreases a.len(),
{
    if a.len() == 0 {
        assert(a + b =~= b);
        assert(encode_utf8(a) + encode_utf8(b) =~= encode_utf8(b));
    } else {
        assert((a + b).drop_first() =~= a.drop_first() + b);
        assert((a + b)[0] == a[0]);
        lemma_encode_concat(a.drop_first(), b);
        assert(encode_utf8(a + b) =~= encode_utf8(a) + encode_utf8(b));
    }
}

/// Every character takes at least one byte, so a proper prefix of a text
/// encodes to strictly fewer bytes than the text.
pub proof fn lemma_proper_prefix_fewer_bytes(text: Seq<char>, k: int)
    requires
        0 <= k < text.len(),
    ensures
        utf8_len(text.take(k)) < utf8_len(text),
{
    let rest = text.skip(k);
    assert(text =~= text.take(k) + rest);
    lemma_encode_concat(text.take(k), rest);
    assert(encode_scalar(rest[0] as u32).len() >= 1);
}

/// Two texts, each followed by anything, that agree as a whole and encode to
/// the same number of bytes are the same text.
pub proof fn lemma_same_bytes_same_prefix(a: Seq<char>, b: Seq<char>, x: Seq<char>, y: Seq<char>)
    requires
        a + x == b + y,
        utf8_len(a) == utf8_len(b),
    ensures
        a == b,
{
    if a.len() < b.len() {
        assert(a =~= (a + x).take(a.len() as int));
        assert(a =~= b.take(a.len() as int));
        lemma_proper_prefix_fewer_bytes(b, a.len() as int);
    } else if b.len() < a.len() {
        assert(b =~= (b + y).take(b.len() as int));
        assert(b =~= a.take(b.len() as int));
        lemma_proper_prefix_fewer_bytes(a, b.len() as int);
    } else {
        assert(a =~= (a + x).take(a.len() as int));
        assert(b =~= (b + y).take(b.len() as int));
    }
}


/// Text in collapsed form: its only whitespace is single plain spaces, each
/// between two other characters.
pub open spec fn collapsed_form(t: Seq<char>) -> bool {
    forall|i: int|
        0 <= i < t.len() && is_space(#[trigger] t[i]) ==> t[i] == ' ' && 0 < i < t.len() - 1 && !is_space(t[i - 1])
            && !is_space(t[i + 1])
}

/// Collapsing always gives collapsed form.
pub proof fn lemma_collapse_form(s: Seq<char>)
    ensures
        collapsed_form(collapse(s)),
    decreases s.len(),
{
    if s.len() > 0 {
        if is_space(s[0]) {
            lemma_collapse_form(s.drop_first());
        } else {
            lemma_word_len_bound(s);
            let k = word_len(s) as int;
            assert(k == 1 + word_len(s.drop_first()));
            let word = s.take(k);
            let rest = collapse(s.skip(k));
            lemma_collapse_form(s.skip(k));
            assert forall|i: int| 0 <= i < word.len() implies !is_space(#[trigger] word[i]) by {
                assert(word[i] == s[i]);
            }
            if rest.len() > 0 {
                assert(!is_space(rest[0]));
                assert(!is_space(rest[rest.len() - 1]));
                let t = word + seq![' '] + rest;
                assert(is_space(' '));
                assert forall|i: int| 0 <= i < t.len() && is_space(#[trigger] t[i]) implies t[i] == ' ' && 0 < i < t.len()
                    - 1 && !is_space(t[i - 1]) && !is_space(t[i + 1]) by {
                    if i < k {
                        assert(t[i] == word[i]);
                    } else if i > k {
                        assert(t[i] == rest[i - k - 1]);
                        if i - k - 1 > 0 {
                            assert(t[i - 1] == rest[i - k - 2]);
                        } else {
                            assert(t[i - 1] == ' ');
                            assert(is_space(rest[0]));
                        }
                        assert(t[i + 1] == rest[i - k]);
                    } else {
                        assert(t[i - 1] == word[k - 1]);
                        assert(t[i + 1] == rest[0]);
                    }
                }
            } else {
                assert forall|i: int| 0 <= i < word.len() && is_space(#[trigger] word[i]) implies false by {}
            }
        }
    }
}

/// Text in collapsed form is left as it is by collapsing.
pub proof fn lemma_collapse_keeps_form(t: Seq<char>)
    requires
        collapsed_form(t),
    ensures
        collapse(t) == t,
    decreases t.len(),
{
    if t.len() > 0 {
        assert(!is_space(t[0])) by {
            if is_space(t[0]) {
                assert(0 < 0int);
            }
        }
        lemma_word_len_bound(t);
        let k = word_len(t) as int;
        assert(k == 1 + word_len(t.drop_first()));
        if k == t.len() {
            assert(t.skip(k) =~= Seq::<char>::empty());
            assert(collapse(t.skip(k)).len() == 0);
            assert(t.take(k) =~= t);
            assert(collapse(t) == t.take(k));
        } else {
            assert(is_space(t[k]));
            assert(t[k] == ' ' && !is_space(t[k + 1]));
            let tail = t.skip(k + 1);
            assert(t.skip(k).drop_first() =~= tail);
            assert(t.skip(k)[0] == t[k]);
            assert(collapse(t.skip(k)) == collapse(tail));
            assert(collapsed_form(tail)) by {
                assert forall|i: int| 0 <= i < tail.len() && is_space(#[trigger] tail[i]) implies tail[i] == ' ' && 0 < i
                    < tail.len() - 1 && !is_space(tail[i - 1]) && !is_space(tail[i + 1]) by {
                    assert(tail[i] == t[k + 1 + i]);
                    if i == 0 {
                        assert(!is_space(t[k + 1]));
                    } else {
                        assert(tail[i - 1] == t[k + i]);
                    }
                    assert(i + 1 < tail.len());
                    assert(tail[i + 1] == t[k + 2 + i]);
                }
            }
            lemma_collapse_keeps_form(tail);
            assert(tail.len() > 0);
            assert(collapse(t.skip(k)) == tail);
            assert(collapse(t) == t.take(k) + seq![' '] + collapse(t.skip(k)));
            assert(t =~= t.take(k) + seq![' '] + tail);
        }
    }
}

/// Collapsing whitespace twice gives what collapsing once gave.
pub proof fn lemma_collapse_idempotent(s: Seq<char>)
    ensures
        collapse(collapse(s)) == collapse(s),
{
    lemma_collapse_form(s);
    lemma_collapse_keeps_form(collapse(s));
}

} // verus!
