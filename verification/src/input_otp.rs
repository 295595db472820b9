//! One-time-password input: which characters a pattern accepts, how typed
//! or pasted text is filtered into slots, and where group separators go.

use vstd::prelude::*;
use crate::text::chars_of;
use crate::text::string_of;

verus! {

/// Characters a one-time password may hold: ASCII digits, ASCII letters and
/// digits, or whatever a caller predicate accepts.
pub enum OtpPattern<F> {
    Digits,
    Alphanumeric,
    Custom(F),
}

pub open spec fn is_ascii_digit(c: char) -> bool {
    '0' <= c && c <= '9'
}

pub open spec fn is_ascii_alphanumeric(c: char) -> bool {
    is_ascii_digit(c) || ('a' <= c && c <= 'z') || ('A' <= c && c <= 'Z')
}

/// `ok` is a verdict the pattern can give on `c`.
pub open spec fn accepts_as<F: Fn(char) -> bool>(pattern: OtpPattern<F>, c: char, ok: bool) -> bool {
    match pattern {
        OtpPattern::Digits => ok == is_ascii_digit(c),
        OtpPattern::Alphanumeric => ok == is_ascii_alphanumeric(c),
        OtpPattern::Custom(f) => f.ensures((c,), ok),
    }
}

pub open spec fn callable<F: Fn(char) -> bool>(pattern: OtpPattern<F>) -> bool {
    pattern matches OtpPattern::Custom(f) ==> forall|c: char| #[trigger] f.requires((c,))
}

impl<F: Fn(char) -> bool> OtpPattern<F> {
    /// Whether the pattern accepts `character`.
    pub fn accepts(&self, character: char) -> (r: bool)
        requires
            callable(*self),
        ensures
            accepts_as(*self, character, r),
    {
        match self {
            OtpPattern::Digits => '0' <= character && character <= '9',
            OtpPattern::Alphanumeric => ('0' <= character && character <= '9') || ('a' <= character && character
                <= 'z') || ('A' <= character && character <= 'Z'),
            OtpPattern::Custom(accepts) => accepts(character),
        }
    }
}

/// The characters of `chars` whose verdict is `true`, in order.
pub open spec fn kept(chars: Seq<char>, verdicts: Seq<bool>) -> Seq<char>
    decreases chars.len(),
{
    if chars.len() == 0 {
        seq![]
    } else {
        kept(chars.drop_last(), verdicts.drop_last()) + if verdicts.last() {
            seq![chars.last()]
        } else {
            seq![]
        }
    }
}

/// `r` is what filtering `value` through the pattern and keeping at most
/// `length` characters gives, for the verdicts the pattern gave on the
/// characters it was asked about: asking stops once `length` are kept.
pub open spec fn normalized_as<F: Fn(char) -> bool>(value: Seq<char>, length: int, pattern: OtpPattern<F>, r: Seq<char>) -> bool {
    exists|verdicts: Seq<bool>|
        {
            &&& verdicts.len() <= value.len()
            &&& forall|i: int| 0 <= i < verdicts.len() ==> accepts_as(pattern, value[i], #[trigger] verdicts[i])
            &&& r == kept(value.take(verdicts.len() as int), verdicts)
            &&& r.len() <= length
            &&& r.len() < length ==> verdicts.len() == value.len()
            &&& verdicts.len() > 0 ==> r.len() < length || verdicts.last()
        }
}

proof fn lemma_kept_push(chars: Seq<char>, verdicts: Seq<bool>, c: char, ok: bool)
    requires
        chars.len() == verdicts.len(),
    ensures
        kept(chars.push(c), verdicts.push(ok)) == kept(chars, verdicts) + if ok {
            seq![c]
        } else {
            seq![]
        },
{
    assert(chars.push(c).drop_last() =~= chars);
    assert(verdicts.push(ok).drop_last() =~= verdicts);
}

/// Filters typed or pasted text through the pattern and keeps at most
/// `length` characters.
pub fn normalize<F: Fn(char) -> bool>(value: &str, length: usize, pattern: OtpPattern<F>) -> (r: String)
    requires
        callable(pattern),
    ensures
        normalized_as(value@, length as int, pattern, r@),
{
    let chars = chars_of(value);
    let mut out: Vec<char> = Vec::new();
    let ghost mut verdicts: Seq<bool> = seq![];
    let mut index: usize = 0;
    while index < chars.len() && out.len() < length
        invariant
            chars@ == value@,
            0 <= index <= chars.len(),
            verdicts.len() == index,
            callable(pattern),
            forall|i: int| 0 <= i < verdicts.len() ==> accepts_as(pattern, value@[i], #[trigger] verdicts[i]),
            out@ == kept(value@.take(index as int), verdicts),
            out@.len() <= length,
            index > 0 ==> out@.len() < length || verdicts.last(),
        decreases chars.len() - index,
    {
        let c = chars[index];
        let ok = pattern.accepts(c);
        proof {
            lemma_kept_push(value@.take(index as int), verdicts, c, ok);
            assert(value@.take(index as int + 1) =~= value@.take(index as int).push(c));
            verdicts = verdicts.push(ok);
        }
        if ok {
            out.push(c);
        }
        index = index + 1;
    }
    let r = string_of(&out);
    assert(normalized_as(value@, length as int, pattern, r@)) by {
        let v = verdicts;
        assert(r@ == kept(value@.take(v.len() as int), v));
    }
    r
}

/// Whether the text fills all `length` slots once normalized.
pub fn is_complete<F: Fn(char) -> bool>(value: &str, length: usize, pattern: OtpPattern<F>) -> (r: bool)
    requires
        callable(pattern),
    ensures
        exists|s: Seq<char>| normalized_as(value@, length as int, pattern, s) && r == (length > 0 && s.len() == length),
{
    let normalized = normalize(value, length, pattern);
    length > 0 && normalized.unicode_len() == length
}

/// Running total of group sizes, as `saturating_add` computes it.
pub open spec fn group_total(groups: Seq<usize>) -> int
    decreases groups.len(),
{
    if groups.len() == 0 {
        0
    } else {
        let t = group_total(groups.drop_last()) + groups.last();
        if t > usize::MAX {
            usize::MAX as int
        } else {
            t
        }
    }
}

/// Ends of the groups that fall strictly inside the slots, in order: where a
/// separator goes. The last group never gets a trailing separator.
pub open spec fn group_ends(length: int, groups: Seq<usize>) -> Seq<usize>
    decreases groups.len(),
{
    if groups.len() == 0 {
        seq![]
    } else {
        let previous = group_ends(length, groups.drop_last());
        let end = group_total(groups);
        if end < length {
            previous.push(end as usize)
        } else {
            previous
        }
    }
}

/// Slot indices after which a group separator is drawn.
pub fn separator_indices(length: usize, groups: &[usize]) -> (r: Vec<usize>)
    ensures
        r@ == group_ends(length as int, groups@),
{
    let mut end: usize = 0;
    let mut ends: Vec<usize> = Vec::new();
    let mut index: usize = 0;
    while index < groups.len()
        invariant
            0 <= index <= groups.len(),
            end as int == group_total(groups@.take(index as int)),
            ends@ == group_ends(length as int, groups@.take(index as int)),
        decreases groups.len() - index,
    {
        assert(groups@.take(index as int + 1).drop_last() =~= groups@.take(index as int));
        end = end.saturating_add(groups[index]);
        if end < length {
            ends.push(end);
        }
        index = index + 1;
    }
    assert(groups@.take(groups@.len() as int) =~= groups@);
    ends
}


/// Every character `kept` holds comes from a position whose verdict was
/// `true`.
proof fn lemma_kept_from_accepted(chars: Seq<char>, verdicts: Seq<bool>)
    requires
        chars.len() == verdicts.len(),
    ensures
        kept(chars, verdicts).len() <= chars.len(),
        forall|i: int| 0 <= i < kept(chars, verdicts).len() ==> #[trigger] came_from_accepted(chars, verdicts, kept(chars, verdicts)[i]),
    decreases chars.len(),
{
    if chars.len() > 0 {
        let c = chars.drop_last();
        let v = verdicts.drop_last();
        lemma_kept_from_accepted(c, v);
        let k = kept(chars, verdicts);
        assert forall|i: int| 0 <= i < k.len() implies #[trigger] came_from_accepted(chars, verdicts, k[i]) by {
            if i < kept(c, v).len() {
                assert(k[i] == kept(c, v)[i]);
                assert(came_from_accepted(c, v, kept(c, v)[i]));
                let j = choose|j: int| 0 <= j < c.len() && v[j] && c[j] == kept(c, v)[i];
                assert(chars[j] == c[j] && verdicts[j] == v[j]);
                assert(0 <= j < chars.len() && verdicts[j] && chars[j] == k[i]);
            } else {
                let j = chars.len() - 1;
                assert(0 <= j < chars.len() && verdicts[j] && chars[j] == k[i]);
            }
        }
    }
}

/// `c` sits at a position of `chars` whose verdict was `true`.
pub open spec fn came_from_accepted(chars: Seq<char>, verdicts: Seq<bool>, c: char) -> bool {
    exists|j: int| 0 <= j < chars.len() && verdicts[j] && chars[j] == c
}

/// Normalized text never holds more characters than there are slots, and
/// the pattern accepted each character it holds.
pub proof fn lemma_normalized_fits_and_accepts<F: Fn(char) -> bool>(
    value: Seq<char>,
    length: int,
    pattern: OtpPattern<F>,
    r: Seq<char>,
)
    requires
        normalized_as(value, length, pattern, r),
    ensures
        r.len() <= length,
        r.len() <= value.len(),
        forall|i: int| 0 <= i < r.len() ==> accepts_as(pattern, #[trigger] r[i], true),
{
    let verdicts = choose|verdicts: Seq<bool>|
        {
            &&& verdicts.len() <= value.len()
            &&& forall|i: int| 0 <= i < verdicts.len() ==> accepts_as(pattern, value[i], #[trigger] verdicts[i])
            &&& r == kept(value.take(verdicts.len() as int), verdicts)
            &&& r.len() <= length
            &&& r.len() < length ==> verdicts.len() == value.len()
            &&& verdicts.len() > 0 ==> r.len() < length || verdicts.last()
        };
    let chars = value.take(verdicts.len() as int);
    lemma_kept_from_accepted(chars, verdicts);
    assert forall|i: int| 0 <= i < r.len() implies accepts_as(pattern, #[trigger] r[i], true) by {
        assert(came_from_accepted(chars, verdicts, r[i]));
        let j = choose|j: int| 0 <= j < chars.len() && verdicts[j] && chars[j] == r[i];
        assert(chars[j] == value[j]);
    }
}

} // verus!
