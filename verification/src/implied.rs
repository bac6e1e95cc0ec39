use vstd::prelude::*;
use crate::lexical::{
    implied_after_group, implied_after_number, lemma_literal_end_bounds, lemma_prepend_twice,
    lemma_skip_spaces_bounds, lex, lex_from, literal_end, prepend, skip_spaces,
};
use crate::token::{has_digit, is_digit, is_literal_char, is_operator, is_space, TokenModel};

verus! {

/// Where reading goes on behind what starts at `at`: behind a literal or a
/// closing parenthesis and the white space that follows it, and else behind
/// the one character.
pub open spec fn next_start(s: Seq<char>, at: int) -> int {
    if is_literal_char(s[at]) {
        skip_spaces(s, literal_end(s, at, false))
    } else if s[at] == ')' {
        skip_spaces(s, at + 1)
    } else {
        at + 1
    }
}

/// Whether a token or white space starts at `at`, and no error.
pub open spec fn starts_item(s: Seq<char>, at: int) -> bool {
    &&& 0 <= at < s.len()
    &&& if is_literal_char(s[at]) {
        has_digit(s.subrange(at, literal_end(s, at, false)))
    } else {
        is_operator(s[at]) || is_space(s[at])
    }
}

/// Whether reading that is at `from` comes to `to` without an error, so that
/// a token or white space starts at `to`, or the text ends there.
pub open spec fn reaches(s: Seq<char>, from: int, to: int) -> bool
    decreases to - from,
{
    from == to || (from < to && starts_item(s, from) && from < next_start(s, from) <= to
        && reaches(s, next_start(s, from), to))
}

/// Whether the number or the closing parenthesis that starts at `at` implies
/// a multiplication sign at `sign`, in front of what follows it there.
pub open spec fn implies_sign(s: Seq<char>, at: int, sign: int) -> bool {
    &&& starts_item(s, at)
    &&& next_start(s, at) == sign
    &&& (is_literal_char(s[at]) && implied_after_number(s, sign)) || (s[at] == ')'
        && implied_after_group(s, sign))
}

/// The text `s` with a multiplication sign written in front of index `sign`.
pub open spec fn with_sign(s: Seq<char>, sign: int) -> Seq<char> {
    s.subrange(0, sign).push('*') + s.subrange(sign, s.len() as int)
}

/// An implied multiplication sign may as well be written: where a number or
/// a closing parenthesis implies one, the text has the same tokens with the
/// sign put in. So `2(3)` reads as `2*(3)`, `(2)(3)` as `(2)*(3)`, and `(2)3`
/// as `(2)*3`, wherever in a text they stand.
pub proof fn lemma_implied_sign_written(s: Seq<char>, at: int, sign: int)
    requires
        reaches(s, 0, at),
        implies_sign(s, at, sign),
    ensures
        lex(with_sign(s, sign)) == lex(s),
{
    lemma_item_bounds(s, at);
    lemma_item_with_sign(s, at, sign);
    lemma_same_before(s, with_sign(s, sign), 0, at, sign);
}

/// Whatever starts at `at` ends behind `at`, inside the text.
proof fn lemma_item_bounds(s: Seq<char>, at: int)
    requires
        0 <= at < s.len(),
    ensures
        at < next_start(s, at) <= s.len(),
        is_literal_char(s[at]) ==> at < literal_end(s, at, false) <= next_start(s, at),
{
    if is_literal_char(s[at]) {
        lemma_literal_end_bounds(s, at, false);
        lemma_skip_spaces_bounds(s, literal_end(s, at, false));
    } else if s[at] == ')' {
        lemma_skip_spaces_bounds(s, at + 1);
    }
}

/// A literal that ends at or before `limit` is the same in a text that
/// agrees up to `limit` and does not let the literal go on there.
proof fn lemma_literal_end_same(
    s: Seq<char>,
    t: Seq<char>,
    at: int,
    seen_point: bool,
    limit: int,
)
    requires
        0 <= at <= limit <= s.len(),
        limit <= t.len(),
        forall|k: int| 0 <= k < limit ==> s[k] == t[k],
        literal_end(s, at, seen_point) <= limit,
        literal_end(s, at, seen_point) == limit && limit < t.len() ==> !is_literal_char(
            t[limit],
        ),
    ensures
        literal_end(t, at, seen_point) == literal_end(s, at, seen_point),
    decreases limit - at,
{
    lemma_literal_end_bounds(s, at, seen_point);
    if at < limit {
        if is_digit(s[at]) || (s[at] == '.' && !seen_point) {
            lemma_literal_end_same(s, t, at + 1, seen_point || s[at] == '.', limit);
        }
    }
}

/// White space that ends at or before `limit` is the same in a text that
/// agrees up to `limit` and holds no white space there.
proof fn lemma_skip_spaces_same(s: Seq<char>, t: Seq<char>, at: int, limit: int)
    requires
        0 <= at <= limit <= s.len(),
        limit <= t.len(),
        forall|k: int| 0 <= k < limit ==> s[k] == t[k],
        skip_spaces(s, at) <= limit,
        skip_spaces(s, at) == limit && limit < t.len() ==> !is_space(t[limit]),
    ensures
        skip_spaces(t, at) == skip_spaces(s, at),
    decreases limit - at,
{
    lemma_skip_spaces_bounds(s, at);
    if at < limit {
        if is_space(s[at]) {
            lemma_skip_spaces_same(s, t, at + 1, limit);
        }
    }
}

/// A literal in a text that is `s` moved on by one character ends one
/// character later.
proof fn lemma_literal_end_moved(
    s: Seq<char>,
    t: Seq<char>,
    at: int,
    seen_point: bool,
    from: int,
)
    requires
        0 <= from <= at <= s.len(),
        t.len() == s.len() + 1,
        forall|k: int| from <= k < s.len() ==> t[k + 1] == s[k],
    ensures
        literal_end(t, at + 1, seen_point) == literal_end(s, at, seen_point) + 1,
    decreases s.len() - at,
{
    if at < s.len() {
        assert(t[at + 1] == s[at]);
        if is_digit(s[at]) || (s[at] == '.' && !seen_point) {
            lemma_literal_end_moved(s, t, at + 1, seen_point || s[at] == '.', from);
        }
    }
}

/// White space in a text that is `s` moved on by one character ends one
/// character later.
proof fn lemma_skip_spaces_moved(s: Seq<char>, t: Seq<char>, at: int, from: int)
    requires
        0 <= from <= at <= s.len(),
        t.len() == s.len() + 1,
        forall|k: int| from <= k < s.len() ==> t[k + 1] == s[k],
    ensures
        skip_spaces(t, at + 1) == skip_spaces(s, at) + 1,
    decreases s.len() - at,
{
    if at < s.len() {
        assert(t[at + 1] == s[at]);
        if is_space(s[at]) {
            lemma_skip_spaces_moved(s, t, at + 1, from);
        }
    }
}

/// Behind the written sign the tokens are those of `s` from `at` on, where
/// `t` is `s` from `from` on moved on by one character. At `from` itself no
/// point may stand alone, since what stands in front of it is not the same.
proof fn lemma_lex_from_moved(s: Seq<char>, t: Seq<char>, at: int, from: int)
    requires
        0 <= from <= at <= s.len(),
        t.len() == s.len() + 1,
        forall|k: int| from <= k < s.len() ==> t[k + 1] == s[k],
        at == from && at < s.len() && is_literal_char(s[at]) ==> has_digit(
            s.subrange(at, literal_end(s, at, false)),
        ),
    ensures
        lex_from(t, at + 1) == lex_from(s, at),
    decreases s.len() - at,
{
    if at < s.len() {
        assert(t[at + 1] == s[at]);
        if is_literal_char(s[at]) {
            let end = literal_end(s, at, false);
            lemma_literal_end_bounds(s, at, false);
            lemma_literal_end_moved(s, t, at, false, from);
            assert(t.subrange(at + 1, end + 1) =~= s.subrange(at, end));
            if has_digit(s.subrange(at, end)) {
                let next = skip_spaces(s, end);
                lemma_skip_spaces_bounds(s, end);
                lemma_skip_spaces_moved(s, t, end, from);
                if next < s.len() {
                    assert(t[next + 1] == s[next]);
                }
                lemma_lex_from_moved(s, t, next, from);
            } else {
                assert(t[at] == s[at - 1]);
            }
        } else if s[at] == ')' {
            let next = skip_spaces(s, at + 1);
            lemma_skip_spaces_bounds(s, at + 1);
            lemma_skip_spaces_moved(s, t, at + 1, from);
            if next < s.len() {
                assert(t[next + 1] == s[next]);
            }
            lemma_lex_from_moved(s, t, next, from);
        } else if is_operator(s[at]) || is_space(s[at]) {
            lemma_lex_from_moved(s, t, at + 1, from);
        }
    }
}

/// From the number or the parenthesis that implies the sign, the text has
/// the same tokens with the sign put in.
proof fn lemma_item_with_sign(s: Seq<char>, at: int, sign: int)
    requires
        implies_sign(s, at, sign),
    ensures
        at < sign < s.len(),
        forall|k: int| 0 <= k < sign ==> s[k] == (#[trigger] with_sign(s, sign)[k]),
        lex_from(with_sign(s, sign), at) == lex_from(s, at),
{
    let t = with_sign(s, sign);
    lemma_item_bounds(s, at);
    assert(t[sign] == '*');
    assert forall|k: int| sign <= k < s.len() implies t[k + 1] == s[k] by {}
    if is_literal_char(s[sign]) {
        lemma_literal_end_bounds(s, sign, false);
        assert(is_digit(s.subrange(sign, literal_end(s, sign, false))[0]));
    }
    lemma_lex_from_moved(s, t, sign, sign);
    let behind = lex_from(s, sign);
    assert(lex_from(t, sign) == prepend(seq![TokenModel::Operator('*')], behind));
    if is_literal_char(s[at]) {
        let end = literal_end(s, at, false);
        lemma_literal_end_same(s, t, at, false, sign);
        lemma_skip_spaces_bounds(s, end);
        lemma_skip_spaces_same(s, t, end, sign);
        assert(t.subrange(at, end) =~= s.subrange(at, end));
        let number = TokenModel::Number(s.subrange(at, end));
        lemma_prepend_twice(seq![number], seq![TokenModel::Operator('*')], behind);
        assert(seq![number] + seq![TokenModel::Operator('*')] =~= seq![
            number,
            TokenModel::Operator('*'),
        ]);
    } else {
        lemma_skip_spaces_same(s, t, at + 1, sign);
        let close = TokenModel::Operator(')');
        lemma_prepend_twice(seq![close], seq![TokenModel::Operator('*')], behind);
        assert(seq![close] + seq![TokenModel::Operator('*')] =~= seq![
            close,
            TokenModel::Operator('*'),
        ]);
    }
}

/// Two texts that agree before `limit` and have the same tokens from `to`
/// on, where `to` is before `limit`, have the same tokens from wherever
/// reading comes to `to`.
proof fn lemma_same_before(s: Seq<char>, t: Seq<char>, from: int, to: int, limit: int)
    requires
        0 <= from,
        reaches(s, from, to),
        to < limit <= s.len(),
        limit <= t.len(),
        forall|k: int| 0 <= k < limit ==> s[k] == t[k],
        lex_from(t, to) == lex_from(s, to),
    ensures
        lex_from(t, from) == lex_from(s, from),
    decreases to - from,
{
    if from < to {
        let next = next_start(s, from);
        lemma_same_before(s, t, next, to, limit);
        if is_literal_char(s[from]) {
            let end = literal_end(s, from, false);
            lemma_literal_end_bounds(s, from, false);
            lemma_skip_spaces_bounds(s, end);
            lemma_literal_end_same(s, t, from, false, limit);
            lemma_skip_spaces_same(s, t, end, limit);
            assert(t.subrange(from, end) =~= s.subrange(from, end));
        } else if s[from] == ')' {
            lemma_skip_spaces_same(s, t, from + 1, limit);
        }
    }
}

} // verus!
