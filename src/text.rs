//! Byte-level building blocks: byte order of rendered keys, decimal text of
//! integers, the canonical number grammar and the minimal escape table.
use vstd::prelude::*;

verus! {

pub const DIGIT_ZERO: u8 = 0x30;
pub const DIGIT_ONE: u8 = 0x31;
pub const DIGIT_NINE: u8 = 0x39;
pub const MINUS: u8 = 0x2d;
pub const QUOTE: u8 = 0x22;
pub const BACKSLASH: u8 = 0x5c;
pub const SOLIDUS: u8 = 0x2f;

/// Lexicographic order on byte strings: `a` sorts no later than `b`.
pub open spec fn key_le(a: Seq<u8>, b: Seq<u8>) -> bool
    decreases a.len(),
{
    if a.len() == 0 {
        true
    } else if b.len() == 0 {
        false
    } else if a[0] != b[0] {
        a[0] < b[0]
    } else {
        key_le(a.drop_first(), b.drop_first())
    }
}

/// Any two byte strings are ordered one way or the other.
pub proof fn lemma_key_le_total(a: Seq<u8>, b: Seq<u8>)
    ensures
        key_le(a, b) || key_le(b, a),
    decreases a.len(),
{
    if a.len() > 0 && b.len() > 0 && a[0] == b[0] {
        lemma_key_le_total(a.drop_first(), b.drop_first());
    }
}

/// Two byte strings ordered both ways are equal.
pub proof fn lemma_key_le_antisymmetric(a: Seq<u8>, b: Seq<u8>)
    requires
        key_le(a, b),
        key_le(b, a),
    ensures
        a == b,
    decreases a.len(),
{
    if a.len() > 0 {
        lemma_key_le_antisymmetric(a.drop_first(), b.drop_first());
        assert(a =~= seq![a[0]] + a.drop_first());
        assert(b =~= seq![b[0]] + b.drop_first());
    } else {
        assert(b =~= Seq::<u8>::empty());
    }
}

/// The byte order is transitive.
pub proof fn lemma_key_le_transitive(a: Seq<u8>, b: Seq<u8>, c: Seq<u8>)
    requires
        key_le(a, b),
        key_le(b, c),
    ensures
        key_le(a, c),
    decreases a.len(),
{
    if a.len() > 0 && b.len() > 0 && c.len() > 0 && a[0] == b[0] && b[0] == c[0] {
        lemma_key_le_transitive(a.drop_first(), b.drop_first(), c.drop_first());
    }
}

/// Compares two byte strings in lexicographic order.
pub fn key_le_exec(a: &Vec<u8>, b: &Vec<u8>) -> (r: bool)
    ensures
        r == key_le(a@, b@),
{
    let mut i: usize = 0;
    assert(a@.subrange(0, a@.len() as int) =~= a@);
    assert(b@.subrange(0, b@.len() as int) =~= b@);
    while i < a.len() && i < b.len() && a[i] == b[i]
        invariant
            i <= a.len(),
            i <= b.len(),
            key_le(a@, b@) == key_le(a@.subrange(i as int, a@.len() as int), b@.subrange(i as int, b@.len() as int)),
        decreases a.len() - i,
    {
        let ghost sa = a@.subrange(i as int, a@.len() as int);
        let ghost sb = b@.subrange(i as int, b@.len() as int);
        assert(sa.drop_first() =~= a@.subrange(i + 1, a@.len() as int));
        assert(sb.drop_first() =~= b@.subrange(i + 1, b@.len() as int));
        i = i + 1;
    }
    if i == a.len() {
        true
    } else if i == b.len() {
        false
    } else {
        a[i] < b[i]
    }
}

/// Appends every byte of `src` to `dst`.
pub fn push_all(dst: &mut Vec<u8>, src: &[u8])
    ensures
        final(dst)@ == old(dst)@ + src@,
{
    let mut i: usize = 0;
    while i < src.len()
        invariant
            i <= src@.len(),
            dst@ == old(dst)@ + src@.subrange(0, i as int),
        decreases src@.len() - i,
    {
        dst.push(src[i]);
        assert(src@.subrange(0, i + 1) =~= src@.subrange(0, i as int).push(src@[i as int]));
        i = i + 1;
    }
    assert(src@.subrange(0, src@.len() as int) =~= src@);
}

/// The ASCII decimal digits of a natural number, most significant first,
/// without leading zeros.
pub open spec fn decimal_digits(n: nat) -> Seq<u8>
    decreases n,
{
    if n < 10 {
        seq![(n + 48) as u8]
    } else {
        decimal_digits(n / 10).push((n % 10 + 48) as u8)
    }
}

/// Standard decimal text of an integer: a `-` before the digits of the
/// magnitude when negative, no grouping and no leading zeros.
pub open spec fn decimal_text(v: int) -> Seq<u8> {
    if v < 0 {
        seq![MINUS] + decimal_digits((-v) as nat)
    } else {
        decimal_digits(v as nat)
    }
}

/// Relies on itoa::Buffer::format: the decimal text of a signed integer.
#[verifier::external_body]
pub(crate) fn format_signed(v: i128) -> (r: Vec<u8>)
    ensures
        r@ == decimal_text(v as int),
{
    let mut buffer = itoa::Buffer::new();
    buffer.format(v).as_bytes().to_vec()
}

/// Relies on itoa::Buffer::format: the decimal text of an unsigned integer.
#[verifier::external_body]
pub(crate) fn format_unsigned(v: u128) -> (r: Vec<u8>)
    ensures
        r@ == decimal_text(v as int),
{
    let mut buffer = itoa::Buffer::new();
    buffer.format(v).as_bytes().to_vec()
}

pub open spec fn is_digit(b: u8) -> bool {
    DIGIT_ZERO <= b <= DIGIT_NINE
}

pub open spec fn is_nonzero_digit(b: u8) -> bool {
    DIGIT_ONE <= b <= DIGIT_NINE
}

pub open spec fn all_digits(s: Seq<u8>) -> bool {
    forall|i: int| 0 <= i < s.len() ==> is_digit(#[trigger] s[i])
}

/// The number grammar: a single digit, a minus and one nonzero digit, or an
/// optionally negative run of two or more digits that starts with a nonzero
/// digit.
pub open spec fn is_canonical_number(s: Seq<u8>) -> bool {
    ||| (s.len() == 1 && is_digit(s[0]))
    ||| (s.len() == 2 && s[0] == MINUS && is_nonzero_digit(s[1]))
    ||| (s.len() >= 2 && is_nonzero_digit(s[0]) && all_digits(s.drop_first()))
    ||| (s.len() >= 3 && s[0] == MINUS && is_nonzero_digit(s[1]) && all_digits(
        s.subrange(2, s.len() as int),
    ))
}

/// Tells whether `s` is a number literal of the canonical grammar.
pub fn is_canonical_number_text(s: &[u8]) -> (r: bool)
    ensures
        r == is_canonical_number(s@),
{
    let n = s.len();
    let start: usize = if n > 0 && s[0] == MINUS {
        1
    } else {
        0
    };
    if start >= n {
        return false;
    }
    if !(DIGIT_ZERO <= s[start] && s[start] <= DIGIT_NINE) {
        return false;
    }
    if s[start] == DIGIT_ZERO && (start == 1 || n > 1) {
        return false;
    }
    let mut i: usize = start + 1;
    while i < n
        invariant
            start + 1 <= i <= n,
            n == s@.len(),
            start <= 1,
            start == 1 ==> s@[0] == MINUS,
            start == 0 ==> s@[0] != MINUS,
            is_digit(s@[start as int]),
            n > start + 1 ==> is_nonzero_digit(s@[start as int]),
            forall|j: int| start + 1 <= j < i ==> is_digit(#[trigger] s@[j]),
        decreases n - i,
    {
        if !(DIGIT_ZERO <= s[i] && s[i] <= DIGIT_NINE) {
            if start == 0 {
                assert(!is_digit(s@.drop_first()[i - 1]));
            } else {
                assert(!is_digit(s@.subrange(2, n as int)[i - 2]));
                assert(!all_digits(s@.subrange(2, n as int)));
            }
            return false;
        }
        i = i + 1;
    }
    if start == 0 {
        assert(n >= 2 ==> all_digits(s@.drop_first())) by {
            assert forall|j: int| 0 <= j < s@.drop_first().len() implies is_digit(
                #[trigger] s@.drop_first()[j],
            ) by {
                assert(s@.drop_first()[j] == s@[j + 1]);
            }
        }
    } else {
        assert(n >= 3 ==> all_digits(s@.subrange(2, n as int))) by {
            assert forall|j: int| 0 <= j < s@.subrange(2, n as int).len() implies is_digit(
                #[trigger] s@.subrange(2, n as int)[j],
            ) by {
                assert(s@.subrange(2, n as int)[j] == s@[j + 2]);
            }
        }
    }
    true
}

/// The bytes that one escape event stands for: quote and reverse solidus
/// are backslash-escaped; every other character is written as itself.
pub open spec fn escape_bytes(e: CharEscape) -> Seq<u8> {
    match e {
        CharEscape::Quote => seq![BACKSLASH, QUOTE],
        CharEscape::ReverseSolidus => seq![BACKSLASH, BACKSLASH],
        CharEscape::Solidus => seq![SOLIDUS],
        CharEscape::Backspace => seq![0x08u8],
        CharEscape::FormFeed => seq![0x0cu8],
        CharEscape::LineFeed => seq![0x0au8],
        CharEscape::CarriageReturn => seq![0x0du8],
        CharEscape::Tab => seq![0x09u8],
        CharEscape::AsciiControl(b) => seq![b],
    }
}

/// A character that a string's content asks to have escaped.
#[derive(Clone, Copy, Debug, PartialEq, Eq, Structural)]
pub enum CharEscape {
    Quote,
    ReverseSolidus,
    Solidus,
    Backspace,
    FormFeed,
    LineFeed,
    CarriageReturn,
    Tab,
    AsciiControl(u8),
}

/// Renders one escape event.
pub fn escape_text(e: CharEscape) -> (r: Vec<u8>)
    ensures
        r@ == escape_bytes(e),
{
    let r = match e {
        CharEscape::Quote => vec![BACKSLASH, QUOTE],
        CharEscape::ReverseSolidus => vec![BACKSLASH, BACKSLASH],
        CharEscape::Solidus => vec![SOLIDUS],
        CharEscape::Backspace => vec![0x08u8],
        CharEscape::FormFeed => vec![0x0cu8],
        CharEscape::LineFeed => vec![0x0au8],
        CharEscape::CarriageReturn => vec![0x0du8],
        CharEscape::Tab => vec![0x09u8],
        CharEscape::AsciiControl(b) => vec![b],
    };
    assert(r@ =~= escape_bytes(e));
    r
}

} // verus!
