//! What holds of everything the grammar reads, proved from its definition.

use crate::parser::expr::{binary, BinOp, ExprV};
use crate::parser::grammar::{
    assignment, atom, behind, chain, expression, for_args, if_stmt, inner, input_args,
    is_separator, keyword, lemma_behind, letter, line, more, name, operator, print_items,
    print_stmt, segment, starts_with_pair, step_clause, tier, whole_line, Keyword, Parsed,
};
use crate::parser::instr::InstrV;
use crate::text::{
    lemma_literal_len, lemma_skip_spaces, lemma_span, skip_spaces, starts_with, Class,
};
use vstd::prelude::*;

verus! {

/// Whether what was read off `s` leaves no more text than `s`.
pub open spec fn within<T>(p: Parsed<T>, s: Seq<char>) -> bool {
    p matches Parsed::Done(_, rest) ==> rest.len() <= s.len()
}

/// An operator has one or two characters, which are part of the text.
pub proof fn lemma_operator_len(k: nat, s: Seq<char>)
    ensures
        operator(k, s) matches Some((_, n)) ==> 0 < n <= s.len(),
{
}

/// An atom leaves no more text than it was given.
pub proof fn lemma_atom_within(s: Seq<char>)
    ensures
        within(atom(s), s),
    decreases s.len(), 0nat,
{
    if starts_with(s, '(') {
        let inner = skip_spaces(s.skip(1));
        lemma_skip_spaces(s.skip(1));
        lemma_tier_within(2, inner);
        match tier(2, inner) {
            Parsed::Done(_, rest) => {
                lemma_skip_spaces(rest);
            },
            _ => {},
        }
    } else {
        lemma_span(Class::Alpha, s);
        lemma_literal_len(s);
        if starts_with(s, '"') {
            lemma_span(Class::Unquoted, s.skip(1));
        }
    }
}

/// An expression of any tier leaves no more text than it was given.
pub proof fn lemma_tier_within(k: nat, s: Seq<char>)
    ensures
        within(tier(k, s), s),
    decreases s.len(), k + 1,
{
    let first = if k == 0 {
        atom(s)
    } else {
        tier((k - 1) as nat, s)
    };
    if k == 0 {
        lemma_atom_within(s);
    } else {
        lemma_tier_within((k - 1) as nat, s);
    }
    match first {
        Parsed::Done(e, rest) => {
            lemma_chain_within(k, e, rest);
        },
        _ => {},
    }
}

/// The operators and operands behind a first operand leave no more text than
/// stood behind it.
pub proof fn lemma_chain_within(k: nat, acc: ExprV, s: Seq<char>)
    ensures
        within(chain(k, acc, s), s),
    decreases s.len(), 0nat,
{
    lemma_skip_spaces(s);
    match operator(k, skip_spaces(s)) {
        Some((op, n)) => {
            let t = skip_spaces(skip_spaces(s).skip(n as int));
            lemma_skip_spaces(skip_spaces(s).skip(n as int));
            if t.len() < s.len() {
                if k == 0 {
                    lemma_atom_within(t);
                } else {
                    lemma_tier_within((k - 1) as nat, t);
                }
                let next = if k == 0 {
                    atom(t)
                } else {
                    tier((k - 1) as nat, t)
                };
                match next {
                    Parsed::Done(e, rest) => {
                        lemma_chain_within(k, binary(op, acc, e), rest);
                    },
                    _ => {},
                }
            }
        },
        None => {},
    }
}

/// What [`tier`] is, without the comparison of lengths in it.
pub proof fn lemma_tier(k: nat, s: Seq<char>)
    ensures
        tier(k, s) == match (if k == 0 {
            atom(s)
        } else {
            tier((k - 1) as nat, s)
        }) {
            Parsed::Done(e, rest) => chain(k, e, rest),
            other => other,
        },
{
    if k == 0 {
        lemma_atom_within(s);
    } else {
        lemma_tier_within((k - 1) as nat, s);
    }
}

/// What [`chain`] is, without the comparisons of lengths in it.
pub proof fn lemma_chain(k: nat, acc: ExprV, s: Seq<char>)
    ensures
        chain(k, acc, s) == match operator(k, skip_spaces(s)) {
            None => Parsed::Done(acc, s),
            Some((op, n)) => {
                let t = skip_spaces(skip_spaces(s).skip(n as int));
                match (if k == 0 {
                    atom(t)
                } else {
                    tier((k - 1) as nat, t)
                }) {
                    Parsed::Done(e, rest) => chain(k, binary(op, acc, e), rest),
                    Parsed::Miss(_) => Parsed::Done(acc, s),
                    Parsed::Fail(f) => Parsed::Fail(f),
                }
            },
        },
{
    lemma_skip_spaces(s);
    match operator(k, skip_spaces(s)) {
        Some((_, n)) => {
            let t = skip_spaces(skip_spaces(s).skip(n as int));
            lemma_skip_spaces(skip_spaces(s).skip(n as int));
            if k == 0 {
                lemma_atom_within(t);
            } else {
                lemma_tier_within((k - 1) as nat, t);
            }
        },
        None => {},
    }
}

/// A comparison written with two characters is read as that comparison, and
/// never as the one that its first character writes alone.
pub proof fn two_characters_first(s: Seq<char>)
    ensures
        starts_with_pair(s, '<', '=') ==> operator(2, s) == Some((BinOp::Le, 2nat)),
        starts_with_pair(s, '>', '=') ==> operator(2, s) == Some((BinOp::Ge, 2nat)),
        starts_with_pair(s, '<', '>') ==> operator(2, s) == Some((BinOp::Ne, 2nat)),
{
}

/// Where `<=` and an operand stand behind what was read of a comparison, the
/// two together make one node `Le`, and reading goes on behind the operand.
pub proof fn less_or_equal_is_one_node(acc: ExprV, s: Seq<char>, e: ExprV, rest: Seq<char>)
    requires
        starts_with_pair(skip_spaces(s), '<', '='),
        tier(1, skip_spaces(skip_spaces(s).skip(2))) == Parsed::Done(e, rest),
    ensures
        chain(2, acc, s) == chain(2, binary(BinOp::Le, acc, e), rest),
{
    lemma_chain(2, acc, s);
}

/// The items of a print list leave no more text than they were given.
pub proof fn lemma_print_items_within(acc: Seq<(char, ExprV)>, s: Seq<char>)
    ensures
        within(print_items(acc, s), s),
    decreases s.len(),
{
    let s1 = skip_spaces(s);
    lemma_skip_spaces(s);
    if s1.len() > 0 && is_separator(s1[0]) {
        let t = skip_spaces(s1.skip(1));
        lemma_skip_spaces(s1.skip(1));
        lemma_tier_within(2, t);
        match expression(t) {
            Parsed::Done(e, rest) => {
                lemma_print_items_within(acc.push((s1[0], e)), rest);
            },
            _ => {},
        }
    }
}

/// An identifier leaves no more text than it was given.
proof fn lemma_name_within(s: Seq<char>)
    ensures
        within(name(s), s),
        within(letter(s), s),
{
    lemma_span(Class::Alpha, s);
}

/// `PRINT` leaves no more text than it was given.
proof fn lemma_print_within(s: Seq<char>)
    ensures
        within(print_stmt(s), s),
{
    if keyword(Keyword::Print, s) {
        let s1 = behind(Keyword::Print, s);
        lemma_behind(Keyword::Print, s);
        lemma_skip_spaces(s1);
        lemma_tier_within(2, skip_spaces(s1));
        match expression(skip_spaces(s1)) {
            Parsed::Done(_, rest) => {
                lemma_print_items_within(Seq::empty(), rest);
                match print_items(Seq::empty(), rest) {
                    Parsed::Done(_, rest2) => {
                        lemma_skip_spaces(rest2);
                        if skip_spaces(rest2).len() > 0 {
                            lemma_skip_spaces(skip_spaces(rest2).skip(1));
                        }
                    },
                    _ => {},
                }
            },
            _ => {},
        }
    }
}

/// An assignment leaves no more text than it was given.
proof fn lemma_assignment_within(s: Seq<char>)
    ensures
        within(assignment(s), s),
{
    lemma_name_within(s);
    match name(s) {
        Parsed::Done(_, rest) => {
            let s1 = skip_spaces(rest);
            lemma_skip_spaces(rest);
            if starts_with(s1, '=') {
                lemma_skip_spaces(s1.skip(1));
                lemma_tier_within(2, skip_spaces(s1.skip(1)));
            }
        },
        _ => {},
    }
}

/// What follows `INPUT` leaves no more text than it was given.
proof fn lemma_input_args_within(s: Seq<char>)
    ensures
        within(input_args(s), s),
{
    lemma_tier_within(2, s);
    match expression(s) {
        Parsed::Done(_, rest) => {
            let s1 = skip_spaces(rest);
            lemma_skip_spaces(rest);
            if starts_with(s1, ',') {
                lemma_skip_spaces(s1.skip(1));
                lemma_tier_within(2, skip_spaces(s1.skip(1)));
            }
        },
        _ => {},
    }
}

/// The step of a loop leaves no more text than it was given.
proof fn lemma_step_clause_within(s: Seq<char>)
    ensures
        within(step_clause(s), s),
{
    let s1 = skip_spaces(s);
    lemma_skip_spaces(s);
    if keyword(Keyword::Step, s1) {
        lemma_behind(Keyword::Step, s1);
        lemma_skip_spaces(behind(Keyword::Step, s1));
        lemma_tier_within(2, skip_spaces(behind(Keyword::Step, s1)));
    }
}

/// What follows `FOR` leaves no more text than it was given.
proof fn lemma_for_args_within(s: Seq<char>)
    ensures
        within(for_args(s), s),
{
    lemma_name_within(s);
    match letter(s) {
        Parsed::Done(_, rest) => {
            let s1 = skip_spaces(rest);
            lemma_skip_spaces(rest);
            if starts_with(s1, '=') {
                lemma_skip_spaces(s1.skip(1));
                lemma_tier_within(2, skip_spaces(s1.skip(1)));
                match expression(skip_spaces(s1.skip(1))) {
                    Parsed::Done(_, rest) => {
                        let s2 = skip_spaces(rest);
                        lemma_skip_spaces(rest);
                        if keyword(Keyword::To, s2) {
                            lemma_behind(Keyword::To, s2);
                            lemma_skip_spaces(behind(Keyword::To, s2));
                            lemma_tier_within(2, skip_spaces(behind(Keyword::To, s2)));
                            match expression(skip_spaces(behind(Keyword::To, s2))) {
                                Parsed::Done(_, rest) => {
                                    lemma_step_clause_within(rest);
                                },
                                _ => {},
                            }
                        }
                    },
                    _ => {},
                }
            }
        },
        _ => {},
    }
}

/// What stands behind a word and the white space that must follow it is
/// shorter than the text.
proof fn lemma_behind_spaces(k: Keyword, s: Seq<char>)
    requires
        keyword(k, s),
    ensures
        skip_spaces(behind(k, s)).len() < s.len(),
{
    lemma_behind(k, s);
    lemma_skip_spaces(behind(k, s));
}

/// A statement that opens with `IF` leaves no more text than it was given.
pub proof fn lemma_if_within(s: Seq<char>)
    ensures
        within(if_stmt(s), s),
    decreases s.len(), 1nat,
{
    if keyword(Keyword::If, s) {
        let s1 = behind(Keyword::If, s);
        lemma_behind_spaces(Keyword::If, s);
        lemma_tier_within(2, skip_spaces(s1));
        match expression(skip_spaces(s1)) {
            Parsed::Done(_, rest) => {
                let s2 = skip_spaces(rest);
                lemma_skip_spaces(rest);
                if keyword(Keyword::Then, s2) {
                    let s3 = skip_spaces(behind(Keyword::Then, s2));
                    lemma_behind_spaces(Keyword::Then, s2);
                    lemma_line_within(s3);
                }
            },
            _ => {},
        }
    }
}

/// A statement leaves no more text than it was given.
pub proof fn lemma_inner_within(s: Seq<char>)
    ensures
        within(inner(s), s),
    decreases s.len(), 2nat,
{
    lemma_print_within(s);
    if keyword(Keyword::Let, s) {
        lemma_behind_spaces(Keyword::Let, s);
        lemma_assignment_within(skip_spaces(behind(Keyword::Let, s)));
    }
    if keyword(Keyword::Input, s) {
        lemma_behind_spaces(Keyword::Input, s);
        lemma_input_args_within(skip_spaces(behind(Keyword::Input, s)));
    }
    if keyword(Keyword::GoTo, s) {
        lemma_behind(Keyword::GoTo, s);
        lemma_span(Class::Digit, behind(Keyword::GoTo, s));
    }
    if keyword(Keyword::Cls, s) {
        lemma_behind(Keyword::Cls, s);
    }
    lemma_if_within(s);
    if keyword(Keyword::Stop, s) {
        lemma_behind(Keyword::Stop, s);
    }
    if keyword(Keyword::For, s) {
        lemma_behind_spaces(Keyword::For, s);
        lemma_for_args_within(skip_spaces(behind(Keyword::For, s)));
    }
    if keyword(Keyword::Next, s) {
        lemma_behind_spaces(Keyword::Next, s);
        lemma_name_within(skip_spaces(behind(Keyword::Next, s)));
    }
}

/// A statement with the white space behind it leaves no more text than it
/// was given.
pub proof fn lemma_segment_within(s: Seq<char>)
    ensures
        within(segment(s), s),
    decreases s.len(), 3nat,
{
    lemma_inner_within(s);
    match inner(s) {
        Parsed::Done(_, rest) => {
            lemma_skip_spaces(rest);
        },
        _ => {},
    }
}

/// The statements behind the first leave no more text than stood behind it.
pub proof fn lemma_more_within(acc: Seq<InstrV>, s: Seq<char>)
    ensures
        within(more(acc, s), s),
    decreases s.len(), 0nat,
{
    let s1 = skip_spaces(s);
    lemma_skip_spaces(s);
    if starts_with(s1, ':') {
        let t = skip_spaces(s1.skip(1));
        lemma_skip_spaces(s1.skip(1));
        lemma_segment_within(t);
        match segment(t) {
            Parsed::Done(instr, rest) => {
                lemma_more_within(acc.push(instr), rest);
            },
            _ => {},
        }
    }
}

/// A line that is read leaves nothing.
pub proof fn lemma_line_within(s: Seq<char>)
    ensures
        line(s) matches Parsed::Done(_, rest) ==> rest.len() == 0,
    decreases s.len(), 4nat,
{
}

/// What [`more`] is, without the comparisons of lengths in it.
pub proof fn lemma_more(acc: Seq<InstrV>, s: Seq<char>)
    ensures
        more(acc, s) == ({
            let s1 = skip_spaces(s);
            if starts_with(s1, ':') {
                match segment(skip_spaces(s1.skip(1))) {
                    Parsed::Done(instr, rest) => more(acc.push(instr), rest),
                    Parsed::Miss(_) => Parsed::Done(acc, s),
                    Parsed::Fail(f) => Parsed::Fail(f),
                }
            } else {
                Parsed::Done(acc, s)
            }
        }),
{
    let s1 = skip_spaces(s);
    lemma_skip_spaces(s);
    if starts_with(s1, ':') {
        lemma_skip_spaces(s1.skip(1));
        lemma_segment_within(skip_spaces(s1.skip(1)));
    }
}

/// What [`line`] is, without the comparison of lengths in it: a first
/// statement, those behind it, and nothing more.
pub proof fn lemma_line(s: Seq<char>)
    ensures
        line(s) == match segment(s) {
            Parsed::Done(first, rest) => whole_line(more(seq![first], rest)),
            other => other,
        },
{
    lemma_segment_within(s);
}

} // verus!
