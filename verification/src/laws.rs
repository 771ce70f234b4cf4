use vstd::prelude::*;
use crate::document_value;
use crate::number::is_decimal_literal;
use crate::number::is_digit;
use crate::tokenizer::{
    alpha_run_len, char_is_alphabetic, chars_left, is_number_char, lemma_alpha_run_bound,
    lemma_number_run_bound, lex_step, number_at, number_run_len, text_at, text_run, tokens_from,
    tokens_of, word_at, TokenView,
};

verus! {

/// A character of white space: a space, a tab, a line feed or a carriage return.
pub open spec fn is_blank(c: char) -> bool {
    c == ' ' || c == '\t' || c == '\n' || c == '\r'
}

/// Every number token holds a decimal literal.
pub proof fn lemma_number_tokens_are_decimal(s: Seq<char>, i: int, in_string: bool, k: int)
    requires
        0 <= k < tokens_from(s, i, in_string).len(),
        tokens_from(s, i, in_string)[k] is Number,
    ensures
        is_decimal_literal(tokens_from(s, i, in_string)[k]->Number_0),
    decreases chars_left(s, i),
{
    if 0 <= i < s.len() {
        let step = lex_step(s, i, in_string);
        if k >= step.0.len() {
            lemma_number_tokens_are_decimal(s, step.1, step.2, k - step.0.len());
        }
    }
}

/// The end marker stands at the end only: no token before the last is one.
pub proof fn lemma_marker_only_at_end(s: Seq<char>, i: int, in_string: bool, k: int)
    requires
        0 <= k < tokens_from(s, i, in_string).len() - 1,
    ensures
        tokens_from(s, i, in_string)[k] != TokenView::Eof,
    decreases chars_left(s, i),
{
    if 0 <= i < s.len() {
        let step = lex_step(s, i, in_string);
        if k >= step.0.len() {
            lemma_marker_only_at_end(s, step.1, step.2, k - step.0.len());
        }
    }
}

/// Outside a string, white space under the cursor gives no token: the scan
/// goes on behind it as if it had begun there.
pub proof fn lemma_blank_is_passed_over(s: Seq<char>, i: int)
    requires
        0 <= i < s.len(),
        is_blank(s[i]),
    ensures
        tokens_from(s, i, false) == tokens_from(s, i + 1, false),
{
    assert(lex_step(s, i, false) == (Seq::<TokenView>::empty(), i + 1, false));
    assert(Seq::<TokenView>::empty() + tokens_from(s, i + 1, false) =~= tokens_from(
        s,
        i + 1,
        false,
    ));
}

proof fn lemma_alpha_run_shift(pre: Seq<char>, s: Seq<char>, i: int)
    requires
        0 <= i,
    ensures
        alpha_run_len(pre + s, pre.len() + i) == alpha_run_len(s, i),
    decreases s.len() - i,
{
    if i < s.len() {
        assert((pre + s)[pre.len() + i] == s[i]);
        lemma_alpha_run_shift(pre, s, i + 1);
    }
}

proof fn lemma_number_run_shift(pre: Seq<char>, s: Seq<char>, i: int)
    requires
        0 <= i,
    ensures
        number_run_len(pre + s, pre.len() + i) == number_run_len(s, i),
    decreases s.len() - i,
{
    if i < s.len() {
        assert((pre + s)[pre.len() + i] == s[i]);
        lemma_number_run_shift(pre, s, i + 1);
    }
}

proof fn lemma_text_run_shift(pre: Seq<char>, s: Seq<char>, i: int, escaped: bool)
    requires
        0 <= i,
    ensures
        text_run(pre + s, pre.len() + i, escaped) == text_run(s, i, escaped),
    decreases s.len() - i,
{
    if i < s.len() {
        assert((pre + s)[pre.len() + i] == s[i]);
        lemma_text_run_shift(pre, s, i + 1, false);
        lemma_text_run_shift(pre, s, i + 1, true);
    }
}

proof fn lemma_step_shift(pre: Seq<char>, s: Seq<char>, i: int, in_string: bool)
    requires
        0 <= i < s.len(),
    ensures
        lex_step(pre + s, pre.len() + i, in_string) == (
            lex_step(s, i, in_string).0,
            pre.len() + lex_step(s, i, in_string).1,
            lex_step(s, i, in_string).2,
        ),
{
    let w = pre + s;
    let n = pre.len() as int;
    assert(w[n + i] == s[i]);
    lemma_alpha_run_shift(pre, s, i + 1);
    lemma_number_run_shift(pre, s, i + 1);
    lemma_text_run_shift(pre, s, i + 1, false);
    lemma_text_run_shift(pre, s, i + 1, true);
    lemma_alpha_run_bound(s, i + 1);
    lemma_number_run_bound(s, i + 1);
    assert(text_at(w, n + i) == text_at(s, i));
    assert(word_at(w, n + i) =~= word_at(s, i));
    assert(number_at(w, n + i) =~= number_at(s, i));
}

/// What stands before the cursor plays no part in what the scan gives
/// from the cursor on.
pub proof fn lemma_scan_ignores_what_is_behind(
    pre: Seq<char>,
    s: Seq<char>,
    i: int,
    in_string: bool,
)
    requires
        0 <= i,
    ensures
        tokens_from(pre + s, pre.len() + i, in_string) == tokens_from(s, i, in_string),
    decreases chars_left(s, i),
{
    if i < s.len() {
        let step = lex_step(s, i, in_string);
        lemma_step_shift(pre, s, i, in_string);
        lemma_scan_ignores_what_is_behind(pre, s, step.1, step.2);
    }
}

/// White space before a document has no effect on its tokens.
pub proof fn lemma_leading_blanks_have_no_effect(blanks: Seq<char>, s: Seq<char>)
    requires
        forall|k: int| 0 <= k < blanks.len() ==> is_blank(#[trigger] blanks[k]),
    ensures
        tokens_of(blanks + s) == tokens_of(s),
        document_value(blanks + s) == document_value(s),
{
    lemma_blanks_are_passed_over(blanks, s, 0);
    lemma_scan_ignores_what_is_behind(blanks, s, 0, false);
}

proof fn lemma_blanks_are_passed_over(blanks: Seq<char>, s: Seq<char>, j: int)
    requires
        0 <= j <= blanks.len(),
        forall|k: int| 0 <= k < blanks.len() ==> is_blank(#[trigger] blanks[k]),
    ensures
        tokens_from(blanks + s, j, false) == tokens_from(blanks + s, blanks.len() as int, false),
    decreases blanks.len() - j,
{
    if j < blanks.len() {
        assert((blanks + s)[j] == blanks[j]);
        lemma_blank_is_passed_over(blanks + s, j);
        lemma_blanks_are_passed_over(blanks, s, j + 1);
    }
}

/// Whether the scan of `s`, with the cursor on index `i` and in the given
/// string mode, comes to stand on index `k` outside a string: `k` is then a
/// place between two tokens, or the end of `s`.
pub open spec fn scan_reaches(s: Seq<char>, i: int, in_string: bool, k: int) -> bool
    decreases chars_left(s, i),
{
    if i == k {
        !in_string && 0 <= k <= s.len()
    } else if 0 <= i < s.len() && i < k {
        let step = lex_step(s, i, in_string);
        scan_reaches(s, step.1, step.2, k)
    } else {
        false
    }
}

/// `s` with the character `b` put in before index `k`.
pub open spec fn with_char_at(s: Seq<char>, k: int, b: char) -> Seq<char> {
    s.subrange(0, k).push(b) + s.subrange(k, s.len() as int)
}

proof fn lemma_alpha_run_prefix(s: Seq<char>, w: Seq<char>, j: int, k: int)
    requires
        0 <= j <= k <= s.len(),
        k < w.len(),
        forall|x: int| j <= x < k ==> w[x] == s[x],
        !char_is_alphabetic(w[k]),
        j + alpha_run_len(s, j) <= k,
    ensures
        alpha_run_len(w, j) == alpha_run_len(s, j),
    decreases k - j,
{
    if j < k && char_is_alphabetic(s[j]) {
        lemma_alpha_run_prefix(s, w, j + 1, k);
    }
}

proof fn lemma_number_run_prefix(s: Seq<char>, w: Seq<char>, j: int, k: int)
    requires
        0 <= j <= k <= s.len(),
        k < w.len(),
        forall|x: int| j <= x < k ==> w[x] == s[x],
        !is_number_char(w[k]),
        j + number_run_len(s, j) <= k,
    ensures
        number_run_len(w, j) == number_run_len(s, j),
    decreases k - j,
{
    if j < k && is_number_char(s[j]) {
        lemma_number_run_prefix(s, w, j + 1, k);
    }
}

proof fn lemma_text_run_prefix(s: Seq<char>, w: Seq<char>, j: int, escaped: bool, k: int)
    requires
        0 <= j <= k <= s.len(),
        k < w.len(),
        forall|x: int| j <= x < k ==> w[x] == s[x],
        j + text_run(s, j, escaped).1 < k,
    ensures
        text_run(w, j, escaped) == text_run(s, j, escaped),
    decreases k - j,
{
    if j < k {
        if escaped {
            lemma_text_run_prefix(s, w, j + 1, false, k);
        } else if s[j] == '"' {
        } else if s[j] == '\\' {
            lemma_text_run_prefix(s, w, j + 1, true, k);
        } else {
            lemma_text_run_prefix(s, w, j + 1, false, k);
        }
    }
}

proof fn lemma_step_before_insertion(s: Seq<char>, k: int, b: char, i: int, in_string: bool)
    requires
        0 <= i < k <= s.len(),
        is_blank(b),
        !char_is_alphabetic(b),
        lex_step(s, i, in_string).1 <= k,
        lex_step(s, i, in_string).1 == k ==> !lex_step(s, i, in_string).2,
    ensures
        lex_step(with_char_at(s, k, b), i, in_string) == lex_step(s, i, in_string),
{
    let w = with_char_at(s, k, b);
    assert(w.len() == s.len() + 1);
    assert(w[k] == b);
    assert forall|x: int| 0 <= x < k implies w[x] == s[x] by {}
    let c = s[i];
    if in_string && c != '"' {
        lemma_text_run_prefix(s, w, i + 1, c == '\\', k);
    } else if is_digit(c) || c == '-' {
        lemma_number_run_prefix(s, w, i + 1, k);
        assert(number_at(w, i) =~= number_at(s, i));
    } else if c == 't' || c == 'f' || c == 'n' {
        lemma_alpha_run_prefix(s, w, i + 1, k);
        assert(word_at(w, i) =~= word_at(s, i));
    }
}

proof fn lemma_reach_bounds(s: Seq<char>, i: int, in_string: bool, k: int)
    requires
        scan_reaches(s, i, in_string, k),
    ensures
        i <= k <= s.len(),
        i == k ==> !in_string,
    decreases chars_left(s, i),
{
    if i != k {
        let step = lex_step(s, i, in_string);
        lemma_reach_bounds(s, step.1, step.2, k);
    }
}

proof fn lemma_scan_with_blank(s: Seq<char>, k: int, b: char, i: int, in_string: bool)
    requires
        0 <= i,
        is_blank(b),
        !char_is_alphabetic(b),
        scan_reaches(s, i, in_string, k),
    ensures
        tokens_from(with_char_at(s, k, b), i, in_string) == tokens_from(s, i, in_string),
    decreases chars_left(s, i),
{
    lemma_reach_bounds(s, i, in_string, k);
    let w = with_char_at(s, k, b);
    let front = s.subrange(0, k);
    let back = s.subrange(k, s.len() as int);
    if i == k {
        assert(w[k] == b);
        lemma_blank_is_passed_over(w, k);
        lemma_scan_ignores_what_is_behind(front.push(b), back, 0, false);
        lemma_scan_ignores_what_is_behind(front, back, 0, false);
        assert(front + back =~= s);
    } else {
        let step = lex_step(s, i, in_string);
        lemma_reach_bounds(s, step.1, step.2, k);
        lemma_step_before_insertion(s, k, b, i, in_string);
        lemma_scan_with_blank(s, k, b, step.1, step.2);
    }
}

/// White space between two tokens has no effect: where the scan of `s`
/// comes to stand on index `k` outside a string, a white-space character
/// put in there leaves the tokens, and so the tree, as they were. (No
/// white-space character is alphabetic; that is asked for here because
/// nothing else is known of the alphabetic characters.)
pub proof fn lemma_blank_between_tokens_has_no_effect(s: Seq<char>, k: int, b: char)
    requires
        scan_reaches(s, 0, false, k),
        is_blank(b),
        !char_is_alphabetic(b),
    ensures
        tokens_of(with_char_at(s, k, b)) == tokens_of(s),
        document_value(with_char_at(s, k, b)) == document_value(s),
{
    lemma_scan_with_blank(s, k, b, 0, false);
}

} // verus!
