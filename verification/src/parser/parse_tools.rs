//! The recognisers of single tokens, taken from the crate `nom`, and what the
//! grammar builds directly on them.
//!
//! Each recogniser takes the text that is left and returns, where it applies,
//! the text behind the token. None of their bodies is verified: their
//! contracts restate, over `Seq<char>`, what `nom` documents and its source
//! shows.

use crate::parser::expr::Expr;
use crate::parser::grammar::{
    behind, keyword, label, lemma_behind, lemma_spelling, spelling, Fault, Keyword, Parsed, Rule,
};
use crate::parser::lower::LowerCase;
use crate::text::{
    begins_with_word, int_literal, lemma_span, literal_len, plain_word, skip_spaces, span,
    starts_with, Class,
};
use vstd::prelude::*;

verus! {

/// Trusted: `nom::character::complete::alpha1`. It takes the longest run of
/// ASCII letters at the head of `s`, and fails where there is none.
#[verifier::external_body]
pub(crate) fn alpha1<'a>(s: &'a str) -> (r: Option<(&'a str, &'a str)>)
    ensures
        r is Some <==> span(Class::Alpha, s@) > 0,
        r matches Some((rest, word)) ==> word@ == s@.take(span(Class::Alpha, s@) as int) && rest@
            == s@.skip(span(Class::Alpha, s@) as int),
{
    nom::character::complete::alpha1::<&str, ()>(s).ok()
}

/// Trusted: `nom::character::complete::digit1`. It takes the longest run of
/// ASCII digits at the head of `s`, and fails where there is none.
#[verifier::external_body]
pub(crate) fn digit1<'a>(s: &'a str) -> (r: Option<(&'a str, &'a str)>)
    ensures
        r is Some <==> span(Class::Digit, s@) > 0,
        r matches Some((rest, digits)) ==> digits@ == s@.take(span(Class::Digit, s@) as int)
            && rest@ == s@.skip(span(Class::Digit, s@) as int),
{
    nom::character::complete::digit1::<&str, ()>(s).ok()
}

/// Trusted: `nom::character::complete::multispace0`. It takes the spaces,
/// tabs, carriage returns and line feeds at the head of `s`, however many,
/// and never fails. The text behind them is returned.
#[verifier::external_body]
pub(crate) fn multispace0<'a>(s: &'a str) -> (r: Option<&'a str>)
    ensures
        r is Some,
        r matches Some(rest) ==> rest@ == s@.skip(span(Class::Space, s@) as int),
{
    nom::character::complete::multispace0::<&str, ()>(s).ok().map(|found| found.0)
}

/// Trusted: `nom::character::complete::multispace1`. As `multispace0`, but
/// it fails where `s` does not begin with white space.
#[verifier::external_body]
pub(crate) fn multispace1<'a>(s: &'a str) -> (r: Option<&'a str>)
    ensures
        r is Some <==> span(Class::Space, s@) > 0,
        r matches Some(rest) ==> rest@ == s@.skip(span(Class::Space, s@) as int),
{
    nom::character::complete::multispace1::<&str, ()>(s).ok().map(|found| found.0)
}

/// Trusted: `nom::character::complete::char`. It takes the character `c` at
/// the head of `s`, and fails where `s` begins otherwise or is empty.
#[verifier::external_body]
pub(crate) fn char<'a>(c: char, s: &'a str) -> (r: Option<&'a str>)
    ensures
        r is Some <==> starts_with(s@, c),
        r matches Some(rest) ==> rest@ == s@.skip(1),
{
    nom::character::complete::char::<&str, ()>(c)(s).ok().map(|found| found.0)
}

/// Trusted: `nom::character::complete::one_of`. It takes the first character
/// of `s` where `list` holds it, and fails where it does not or `s` is empty.
#[verifier::external_body]
pub(crate) fn one_of<'a>(list: &str, s: &'a str) -> (r: Option<(&'a str, char)>)
    ensures
        r is Some <==> (s@.len() > 0 && list@.contains(s@[0])),
        r matches Some((rest, c)) ==> c == s@[0] && rest@ == s@.skip(1),
{
    nom::character::complete::one_of::<&str, &str, ()>(list)(s).ok()
}

/// Trusted: `nom::bytes::complete::tag`. It takes `word` at the head of `s`,
/// and fails where `s` does not begin with it.
#[verifier::external_body]
pub(crate) fn tag<'a>(word: &str, s: &'a str) -> (r: Option<&'a str>)
    ensures
        r is Some <==> word@.is_prefix_of(s@),
        r matches Some(rest) ==> rest@ == s@.skip(word@.len() as int),
{
    nom::bytes::complete::tag::<&str, &str, ()>(word)(s).ok().map(|found| found.0)
}

/// Trusted: `nom::bytes::complete::tag_no_case`. It compares the characters
/// of `s` and of `word` pair by pair in their Unicode lower-case forms and,
/// where all agree and `s` is not the shorter, cuts `s` behind as many bytes
/// as `word` has.
///
/// The contract speaks of ASCII only, and so does `requires`: for an ASCII
/// character other than `k`, the characters with the same lower-case form
/// are the letter itself in its two cases and nothing else, so that what is
/// cut off is as long as `word`. (The Kelvin sign becomes `k` in lower case;
/// a word with `k` is left out for it.)
#[verifier::external_body]
pub(crate) fn tag_no_case<'a>(word: &str, s: &'a str) -> (r: Option<&'a str>)
    requires
        plain_word(word@),
    ensures
        r is Some <==> begins_with_word(word@, s@),
        r matches Some(rest) ==> rest@ == s@.skip(word@.len() as int),
{
    nom::bytes::complete::tag_no_case::<&str, &str, ()>(word)(s).ok().map(|found| found.0)
}

/// Whether `c` is a double quote.
pub(crate) fn is_quote(c: char) -> (r: bool)
    ensures
        r == (c == '"'),
{
    c == '"'
}

/// Trusted: `nom::bytes::complete::take_till`, asked for the text up to the
/// first double quote. It takes all of `s` where there is none, and never
/// fails. The text taken comes second.
#[verifier::external_body]
pub(crate) fn take_till_quote<'a>(s: &'a str) -> (r: Option<(&'a str, &'a str)>)
    ensures
        r is Some,
        r matches Some((rest, text)) ==> text@ == s@.take(span(Class::Unquoted, s@) as int)
            && rest@ == s@.skip(span(Class::Unquoted, s@) as int),
{
    nom::bytes::complete::take_till::<_, &str, ()>(|c| is_quote(c))(s).ok()
}

/// Trusted: `nom::character::complete::i64`. It reads an optional sign and
/// the decimal digits behind it, and fails where no digit follows or the
/// number does not fit in 64 bits.
#[verifier::external_body]
pub(crate) fn int64<'a>(s: &'a str) -> (r: Option<(&'a str, i64)>)
    ensures
        r is Some <==> int_literal(s@) is Some,
        r matches Some((rest, v)) ==> int_literal(s@) == Some((v, literal_len(s@))) && rest@
            == s@.skip(literal_len(s@) as int),
{
    nom::character::complete::i64::<&str, ()>(s).ok()
}

/// Why a text could not be read: the text that was left where reading
/// stopped, the rules that were at work there, innermost first, and whether
/// a rule had committed itself, so that no other was tried.
#[derive(Debug, PartialEq, Eq)]
pub struct ParseError<'a> {
    pub rest: &'a str,
    pub trail: Vec<Rule>,
    pub fatal: bool,
}

impl<'a> View for ParseError<'a> {
    type V = Fault;

    open spec fn view(&self) -> Fault {
        Fault { at: self.rest@, trail: self.trail@ }
    }
}

/// What a parser returns: the text that is left and the value read, or the
/// reason why there is none.
pub type ParseResult<'a, T> = Result<(&'a str, T), ParseError<'a>>;

/// The model of what a parser returns.
pub open spec fn parsed<T: View>(r: Result<(&str, T), ParseError>) -> Parsed<T::V> {
    match r {
        Ok((rest, value)) => Parsed::Done(value@, rest@),
        Err(e) => if e.fatal {
            Parsed::Fail(e@)
        } else {
            Parsed::Miss(e@)
        },
    }
}

/// Whether what a parser returned for the text `s` leaves no more than `s`.
pub open spec fn shrinks<T>(r: Result<(&str, T), ParseError>, s: Seq<char>) -> bool {
    r matches Ok((rest, _)) ==> rest@.len() <= s.len()
}

/// The mistake of a rule that does not apply to `at`.
pub(crate) fn miss<'a>(at: &'a str) -> (e: ParseError<'a>)
    ensures
        e@ == (Fault { at: at@, trail: Seq::empty() }),
        !e.fatal,
{
    ParseError { rest: at, trail: Vec::new(), fatal: false }
}

/// The mistake `e` with the name of `rule` left on it.
pub(crate) fn tagged<'a>(e: ParseError<'a>, rule: Rule) -> (r: ParseError<'a>)
    ensures
        r@ == (Fault { at: e@.at, trail: e@.trail.push(rule) }),
        r.fatal == e.fatal,
{
    let mut e = e;
    e.trail.push(rule);
    e
}

/// The mistake `e` as that of a rule that has committed itself.
pub(crate) fn committed<'a>(e: ParseError<'a>) -> (r: ParseError<'a>)
    ensures
        r@ == e@,
        r.fatal,
{
    let mut e = e;
    e.fatal = true;
    e
}

/// `s` without the white space it begins with.
pub(crate) fn spaces<'a>(s: &'a str) -> (r: &'a str)
    ensures
        r@ == skip_spaces(s@),
        r@.len() <= s@.len(),
{
    proof {
        lemma_span(Class::Space, s@);
    }
    match multispace0(s) {
        Some(rest) => rest,
        None => s,
    }
}

/// `s` without the white space it begins with, if it begins with some.
pub(crate) fn spaces1<'a>(s: &'a str) -> (r: Option<&'a str>)
    ensures
        r is Some <==> span(Class::Space, s@) > 0,
        r matches Some(rest) ==> rest@ == skip_spaces(s@) && rest@.len() < s@.len(),
{
    proof {
        lemma_span(Class::Space, s@);
    }
    multispace1(s)
}

impl Rule {
    /// What the rule is called.
    pub fn text(self) -> (r: &'static str)
        ensures
            r@ == label(self),
    {
        match self {
            Rule::PrefixedLine => "prefixed line",
            Rule::BracketedExpr => "bracketed expression",
            Rule::ClosingParen => "closing paren",
            Rule::PrintStatement => "print statement",
            Rule::LetStatement => "let statement",
            Rule::RemStatement => "rem statement",
            Rule::InputStatement => "input statement",
            Rule::GotoStatement => "goto statement",
            Rule::ClsStatement => "cls statement",
            Rule::IfThenStatement => "if then statement",
            Rule::StopStatement => "stop statement",
            Rule::ForLoop => "for loop",
            Rule::NextStatement => "next statement",
        }
    }
}

impl Keyword {
    /// The word in small letters.
    pub fn text(self) -> (r: &'static str)
        ensures
            r@ == spelling(self),
            plain_word(r@),
    {
        proof {
            lemma_spelling(self);
        }
        match self {
            Keyword::Print => "print",
            Keyword::Let => "let",
            Keyword::Rem => "rem",
            Keyword::Input => "input",
            Keyword::GoTo => "go to ",
            Keyword::Cls => "cls",
            Keyword::If => "if",
            Keyword::Then => "then",
            Keyword::Stop => "stop",
            Keyword::For => "for",
            Keyword::To => "to",
            Keyword::Step => "step",
            Keyword::Next => "next",
        }
    }
}

/// `s` behind the word `k`, if it begins with it.
pub(crate) fn word<'a>(k: Keyword, s: &'a str) -> (r: Option<&'a str>)
    ensures
        r is Some <==> keyword(k, s@),
        r matches Some(rest) ==> rest@ == behind(k, s@) && rest@.len() < s@.len(),
{
    let rest = tag_no_case(k.text(), s);
    proof {
        if rest is Some {
            lemma_behind(k, s@);
        }
    }
    rest
}

/// The expression that is the identifier `s`.
pub fn ident<'a>(s: &'a str) -> (r: Expr<'a>)
    ensures
        r == Expr::Ident(LowerCase(s)),
{
    Expr::Ident(LowerCase(s))
}

} // verus!
