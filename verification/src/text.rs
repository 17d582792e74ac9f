//! Character classes and the arithmetic of decimal text, as specifications
//! over `Seq<char>`, together with the few operations on strings that are
//! taken from the standard library on trust.

use vstd::prelude::*;

verus! {

/// The character classes the grammar distinguishes.
pub enum Class {
    /// Space, tab, carriage return, line feed.
    Space,
    /// ASCII letters.
    Alpha,
    /// ASCII decimal digits.
    Digit,
    /// Anything but a double quote.
    Unquoted,
    /// White space as Unicode has it.
    White,
}

/// Whether `c` is a space, a tab, a carriage return or a line feed.
pub open spec fn is_space(c: char) -> bool {
    c == ' ' || c == '\t' || c == '\r' || c == '\n'
}

/// Whether `c` is an ASCII letter.
pub open spec fn is_alpha(c: char) -> bool {
    ('a' <= c && c <= 'z') || ('A' <= c && c <= 'Z')
}

/// Whether `c` is an ASCII decimal digit.
pub open spec fn is_digit(c: char) -> bool {
    '0' <= c && c <= '9'
}

/// Whether `c` is white space by Unicode's property `White_Space`: the
/// controls from tab to carriage return, the space, the next-line control,
/// the no-break space, the Ogham space mark, the spaces from en quad to
/// hair space, the line and the paragraph separator, the narrow no-break
/// space, the medium mathematical space and the ideographic space.
pub open spec fn is_white_space(c: char) -> bool {
    ('\u{9}' <= c && c <= '\u{d}') || c == ' ' || c == '\u{85}' || c == '\u{a0}' || c
        == '\u{1680}' || ('\u{2000}' <= c && c <= '\u{200a}') || c == '\u{2028}' || c
        == '\u{2029}' || c == '\u{202f}' || c == '\u{205f}' || c == '\u{3000}'
}

/// Whether `c` belongs to the class `k`.
pub open spec fn member(k: Class, c: char) -> bool {
    match k {
        Class::Space => is_space(c),
        Class::Alpha => is_alpha(c),
        Class::Digit => is_digit(c),
        Class::Unquoted => c != '"',
        Class::White => is_white_space(c),
    }
}

/// Length of the longest prefix of `s` made of characters of class `k`.
pub open spec fn span(k: Class, s: Seq<char>) -> nat
    decreases s.len(),
{
    if s.len() > 0 && member(k, s[0]) {
        1 + span(k, s.skip(1))
    } else {
        0
    }
}

/// `s` without its leading white space.
pub open spec fn skip_spaces(s: Seq<char>) -> Seq<char> {
    s.skip(span(Class::Space, s) as int)
}

/// Leading white space is part of the text.
pub proof fn lemma_skip_spaces(s: Seq<char>)
    ensures
        skip_spaces(s).len() <= s.len(),
{
    lemma_span(Class::Space, s);
}

/// Whether `s` begins with the character `c`.
pub open spec fn starts_with(s: Seq<char>, c: char) -> bool {
    s.len() > 0 && s[0] == c
}

/// The prefix counted by [`span`] lies within `s`, holds only characters of
/// the class, and is followed by none.
pub proof fn lemma_span(k: Class, s: Seq<char>)
    ensures
        span(k, s) <= s.len(),
        forall|i: int| 0 <= i < span(k, s) ==> member(k, #[trigger] s[i]),
        span(k, s) < s.len() ==> !member(k, s[span(k, s) as int]),
    decreases s.len(),
{
    if s.len() > 0 && member(k, s[0]) {
        let t = s.skip(1);
        lemma_span(k, t);
        assert forall|i: int| 0 <= i < span(k, s) implies member(k, #[trigger] s[i]) by {
            if i > 0 {
                assert(s[i] == t[i - 1]);
            }
        }
        if span(k, s) < s.len() {
            assert(s[span(k, s) as int] == t[span(k, t) as int]);
        }
    }
}

/// A prefix of `n` characters of the class that is followed by none is the
/// one that [`span`] counts.
pub proof fn lemma_span_unique(k: Class, s: Seq<char>, n: nat)
    requires
        n <= s.len(),
        forall|i: int| 0 <= i < n ==> member(k, #[trigger] s[i]),
        n < s.len() ==> !member(k, s[n as int]),
    ensures
        span(k, s) == n,
    decreases n,
{
    if n > 0 {
        let t = s.skip(1);
        assert forall|i: int| 0 <= i < n - 1 implies member(k, #[trigger] t[i]) by {
            assert(t[i] == s[i + 1]);
        }
        if n - 1 < t.len() {
            assert(t[n - 1] == s[n as int]);
        }
        lemma_span_unique(k, t, (n - 1) as nat);
    }
}

/// Value of the decimal digit `c`.
pub open spec fn digit_value(c: char) -> int {
    c as int - '0' as int
}

/// The number written by the decimal digits `d`, most significant first.
pub open spec fn magnitude(d: Seq<char>) -> nat
    decreases d.len(),
{
    if d.len() == 0 {
        0
    } else {
        (magnitude(d.drop_last()) * 10 + digit_value(d.last())) as nat
    }
}

/// Number of characters (none or one) that a leading sign takes.
pub open spec fn sign_len(s: Seq<char>) -> nat {
    if starts_with(s, '-') || starts_with(s, '+') {
        1
    } else {
        0
    }
}

/// Number of decimal digits of `s` behind its sign, if it has one.
pub open spec fn literal_digits(s: Seq<char>) -> nat {
    span(Class::Digit, s.skip(sign_len(s) as int))
}

/// Length of the integer literal at the head of `s`: an optional `+` or `-`,
/// then as many decimal digits as follow.
pub open spec fn literal_len(s: Seq<char>) -> nat {
    sign_len(s) + literal_digits(s)
}

/// The number that the integer literal at the head of `s` writes.
pub open spec fn literal_value(s: Seq<char>) -> int {
    let m = magnitude(s.subrange(sign_len(s) as int, literal_len(s) as int));
    if starts_with(s, '-') {
        -m
    } else {
        m as int
    }
}

/// The integer literal at the head of `s`, as its value and its length.
/// There is none where not a single digit stands or the value does not fit
/// in 64 bits.
pub open spec fn int_literal(s: Seq<char>) -> Option<(i64, nat)> {
    let v = literal_value(s);
    if literal_digits(s) > 0 && i64::MIN <= v && v <= i64::MAX {
        Some((v as i64, literal_len(s)))
    } else {
        None
    }
}

/// The literal at the head of `s` lies within `s`.
pub proof fn lemma_literal_len(s: Seq<char>)
    ensures
        literal_len(s) <= s.len(),
{
    lemma_span(Class::Digit, s.skip(sign_len(s) as int));
}

/// The integer that the whole of `s` writes, if it writes one.
pub open spec fn whole_int(s: Seq<char>) -> Option<i64> {
    match int_literal(s) {
        Some((v, n)) => if n == s.len() {
            Some(v)
        } else {
            None
        },
        None => None,
    }
}

/// The character that writes the digit `d`.
pub open spec fn digit_char(d: int) -> char {
    (d + '0' as int) as char
}

/// Decimal digits of `n`, most significant first, without leading zeros.
pub open spec fn digits(n: nat) -> Seq<char>
    decreases n,
{
    if n < 10 {
        seq![digit_char(n as int)]
    } else {
        digits(n / 10).push(digit_char((n % 10) as int))
    }
}

/// The decimal text of `i`: its digits, after a `-` where it is negative.
pub open spec fn decimal_text(i: int) -> Seq<char> {
    if i < 0 {
        seq!['-'] + digits((-i) as nat)
    } else {
        digits(i as nat)
    }
}

/// `c` with an ASCII capital letter turned into its small letter.
pub open spec fn fold_ascii(c: char) -> char {
    if 'A' <= c && c <= 'Z' {
        ((c as int) + 32) as char
    } else {
        c
    }
}

/// Whether `s` begins with `word`, ASCII letters compared without regard to
/// case.
pub open spec fn begins_with_word(word: Seq<char>, s: Seq<char>) -> bool {
    &&& word.len() <= s.len()
    &&& forall|i: int| 0 <= i < word.len() ==> fold_ascii(#[trigger] s[i]) == fold_ascii(word[i])
}

/// Whether `word` is ASCII throughout and holds no `k`, small or capital.
pub open spec fn plain_word(word: Seq<char>) -> bool {
    forall|i: int|
        0 <= i < word.len() ==> (#[trigger] word[i]) as u32 <= 127 && word[i] != 'k' && word[i]
            != 'K'
}

/// The lower-case form of a text, as `str::to_lowercase` computes it.
pub uninterp spec fn lower_text(s: Seq<char>) -> Seq<char>;

/// Length of the longest suffix of `s` made of characters of class `k`.
pub open spec fn span_back(k: Class, s: Seq<char>) -> nat
    decreases s.len(),
{
    if s.len() > 0 && member(k, s.last()) {
        1 + span_back(k, s.drop_last())
    } else {
        0
    }
}

/// `s` without the white space at its two ends.
pub open spec fn trimmed(s: Seq<char>) -> Seq<char> {
    let rest = s.skip(span(Class::White, s) as int);
    rest.take(rest.len() - span_back(Class::White, rest))
}

/// A suffix of `n` characters of the class that none precedes is the one
/// that [`span_back`] counts.
pub proof fn lemma_span_back_unique(k: Class, s: Seq<char>, n: nat)
    requires
        n <= s.len(),
        forall|i: int| s.len() - n <= i < s.len() ==> member(k, #[trigger] s[i]),
        n < s.len() ==> !member(k, s[s.len() - n - 1]),
    ensures
        span_back(k, s) == n,
    decreases n,
{
    if n > 0 {
        let t = s.drop_last();
        assert(s.last() == s[s.len() - 1]);
        assert forall|i: int| t.len() - (n - 1) <= i < t.len() implies member(
            k,
            #[trigger] t[i],
        ) by {
            assert(t[i] == s[i]);
        }
        if n - 1 < t.len() {
            assert(t[t.len() - (n - 1) - 1] == s[s.len() - n - 1]);
        }
        lemma_span_back_unique(k, t, (n - 1) as nat);
    } else if s.len() > 0 {
        assert(s.last() == s[s.len() - 1]);
    }
}

/// Whether `s` is white space throughout.
pub open spec fn white(s: Seq<char>) -> bool {
    forall|i: int| 0 <= i < s.len() ==> is_white_space(#[trigger] s[i])
}

/// A text that neither begins nor ends with white space is what is left of
/// it once white space before and behind it is trimmed away.
pub proof fn lemma_trimmed(before: Seq<char>, core: Seq<char>, behind: Seq<char>)
    requires
        white(before),
        white(behind),
        core.len() > 0,
        !is_white_space(core[0]),
        !is_white_space(core.last()),
    ensures
        trimmed(before + core + behind) == core,
{
    let s = before + core + behind;
    assert forall|i: int| 0 <= i < before.len() implies member(Class::White, #[trigger] s[i]) by {
        assert(s[i] == before[i]);
    }
    assert(s[before.len() as int] == core[0]);
    lemma_span_unique(Class::White, s, before.len());
    let rest = s.skip(before.len() as int);
    assert(rest =~= core + behind);
    assert forall|i: int| rest.len() - behind.len() <= i < rest.len() implies member(
        Class::White,
        #[trigger] rest[i],
    ) by {
        assert(rest[i] == behind[i - core.len()]);
    }
    assert(rest[rest.len() - behind.len() - 1] == core.last());
    lemma_span_back_unique(Class::White, rest, behind.len());
    assert(rest.take(rest.len() - behind.len()) =~= core);
}

/// The lines of a text: what lies between line feeds, each without the
/// carriage return that may stand before its line feed. A text that ends in a
/// line feed has no empty last line.
pub open spec fn lines_of(s: Seq<char>) -> Seq<Seq<char>>
    decreases s.len(),
{
    if s.len() == 0 {
        seq![]
    } else {
        let n = line_len(s);
        if n < s.len() {
            seq![without_cr(s.take(n as int))] + lines_of(s.skip(n as int + 1))
        } else {
            seq![s]
        }
    }
}

/// Number of characters of `s` before its first line feed.
pub open spec fn line_len(s: Seq<char>) -> nat
    decreases s.len(),
{
    if s.len() > 0 && s[0] != '\n' {
        1 + line_len(s.skip(1))
    } else {
        0
    }
}

/// `s` without a carriage return at its end.
pub open spec fn without_cr(s: Seq<char>) -> Seq<char> {
    if s.len() > 0 && s.last() == '\r' {
        s.drop_last()
    } else {
        s
    }
}

/// Trusted: `str::to_lowercase` of the standard library. The contract only
/// names its result.
#[verifier::external_body]
pub(crate) fn to_lower(s: &str) -> (r: String)
    ensures
        r@ == lower_text(s@),
{
    s.to_lowercase()
}

/// Trusted: `str::trim` of the standard library, which takes the white
/// space off both ends of a text. Its documentation defines white space by
/// Unicode's property `White_Space`; [`is_white_space`] writes that property
/// out.
#[verifier::external_body]
pub(crate) fn trim<'a>(s: &'a str) -> (r: &'a str)
    ensures
        r@ == trimmed(s@),
{
    s.trim()
}

/// Trusted: `str::lines` of the standard library, its items gathered in a
/// vector. The contract states what its documentation describes: the text is
/// cut at every line feed, a carriage return directly before the line feed
/// goes with it, and a final line feed opens no further line.
#[verifier::external_body]
pub(crate) fn split_lines<'a>(s: &'a str) -> (r: Vec<&'a str>)
    ensures
        r@.len() == lines_of(s@).len(),
        forall|i: int| 0 <= i < r@.len() ==> (#[trigger] r@[i])@ == lines_of(s@)[i],
{
    s.lines().collect()
}

/// Trusted: `i64::to_string` of the standard library, which writes the number
/// in decimal, with a `-` before a negative one.
#[verifier::external_body]
pub(crate) fn int_text(i: i64) -> (r: String)
    ensures
        r@ == decimal_text(i as int),
{
    i.to_string()
}

/// Trusted: `char::to_string` of the standard library, the text that holds
/// the one character.
#[verifier::external_body]
pub(crate) fn char_text(c: char) -> (r: String)
    ensures
        r@ == seq![c],
{
    c.to_string()
}

} // verus!
