//! Decimal numerals, and the tokens and values of number files.

use vstd::prelude::*;
use vstd::string::StringExecFns;
use crate::error::Error;

verus! {

/// The character of the decimal digit `d`.
pub open spec fn digit_char(d: int) -> char {
    if d == 0 {
        '0'
    } else if d == 1 {
        '1'
    } else if d == 2 {
        '2'
    } else if d == 3 {
        '3'
    } else if d == 4 {
        '4'
    } else if d == 5 {
        '5'
    } else if d == 6 {
        '6'
    } else if d == 7 {
        '7'
    } else if d == 8 {
        '8'
    } else {
        '9'
    }
}

/// The decimal numeral of `n`, without sign or leading zeros.
pub open spec fn decimal(n: nat) -> Seq<char>
    decreases n,
{
    if n < 10 {
        seq![digit_char(n as int)]
    } else {
        decimal(n / 10).push(digit_char((n % 10) as int))
    }
}

/// The one-character text of the decimal digit `d`.
fn digit_text(d: usize) -> (text: &'static str)
    requires
        d < 10,
    ensures
        text@ == seq![digit_char(d as int)],
{
    proof {
        reveal_strlit("0");
        reveal_strlit("1");
        reveal_strlit("2");
        reveal_strlit("3");
        reveal_strlit("4");
        reveal_strlit("5");
        reveal_strlit("6");
        reveal_strlit("7");
        reveal_strlit("8");
        reveal_strlit("9");
    }
    let text = if d == 0 {
        "0"
    } else if d == 1 {
        "1"
    } else if d == 2 {
        "2"
    } else if d == 3 {
        "3"
    } else if d == 4 {
        "4"
    } else if d == 5 {
        "5"
    } else if d == 6 {
        "6"
    } else if d == 7 {
        "7"
    } else if d == 8 {
        "8"
    } else {
        "9"
    };
    assert(text@ =~= seq![digit_char(d as int)]);
    text
}

/// Appends the decimal numeral of `n` to `out`.
pub fn push_decimal(out: &mut String, n: usize)
    ensures
        final(out)@ == old(out)@ + decimal(n as nat),
    decreases n,
{
    if n >= 10 {
        push_decimal(out, n / 10);
    }
    out.append(digit_text(n % 10));
    assert(final(out)@ =~= old(out)@ + decimal(n as nat));
}

/// The decimal numeral of `n`.
pub fn decimal_string(n: usize) -> (text: String)
    ensures
        text@ == decimal(n as nat),
{
    let mut text = String::new();
    push_decimal(&mut text, n);
    assert(text@ =~= decimal(n as nat));
    text
}

/// Space, tab, line feed, vertical tab, form feed and carriage return
/// separate tokens.
pub open spec fn is_separator(b: u8) -> bool {
    b == 32 || (9 <= b <= 13)
}

/// One token of a text: the bytes `start .. end`.
#[derive(Clone, Copy, Debug, PartialEq, Eq, Structural)]
pub struct Span {
    pub start: usize,
    pub end: usize,
}

/// Whether `span` is a maximal run of bytes of `text` that are not separators.
pub open spec fn is_token(text: Seq<u8>, span: Span) -> bool {
    &&& span.start < span.end <= text.len()
    &&& forall|i: int| span.start <= i < span.end ==> !is_separator(#[trigger] text[i])
    &&& span.start > 0 ==> is_separator(text[span.start - 1])
    &&& span.end < text.len() ==> is_separator(text[span.end as int])
}

/// Whether `spans` are tokens of `text`, in ascending order, and no byte
/// before `upto` that is not a separator lies outside them.
pub open spec fn covers_tokens(text: Seq<u8>, spans: Seq<Span>, upto: int) -> bool {
    &&& forall|k: int| 0 <= k < spans.len() ==> is_token(text, #[trigger] spans[k])
    &&& forall|j: int, k: int|
        0 <= j < k < spans.len() ==> (#[trigger] spans[j]).end < (#[trigger] spans[k]).start
    &&& forall|i: int|
        0 <= i < upto && !is_separator(#[trigger] text[i]) ==> exists|k: int|
            0 <= k < spans.len() && (#[trigger] spans[k]).start <= i < spans[k].end
}

/// Whether `spans` are exactly the tokens of `text`, in order.
pub open spec fn is_tokenization(text: Seq<u8>, spans: Seq<Span>) -> bool {
    covers_tokens(text, spans, text.len() as int)
}

/// Whether `b` separates tokens.
pub fn separates(b: u8) -> (r: bool)
    ensures
        r == is_separator(b),
{
    b == 32 || (9 <= b && b <= 13)
}

/// Splits `text` at separators and reports where each token lies.
pub fn tokenize(text: &[u8]) -> (spans: Vec<Span>)
    ensures
        is_tokenization(text@, spans@),
{
    let n: usize = text.len();
    let mut spans: Vec<Span> = Vec::new();
    let mut i: usize = 0;
    while i < n
        invariant
            n == text@.len(),
            i <= n,
            0 < i < n ==> is_separator(text@[i - 1]),
            covers_tokens(text@, spans@, i as int),
            forall|k: int| 0 <= k < spans@.len() ==> (#[trigger] spans@[k]).end <= i,
            forall|k: int| 0 <= k < spans@.len() && i < n ==> (#[trigger] spans@[k]).end < i,
        decreases n - i,
    {
        if separates(text[i]) {
            i += 1;
        } else {
            let start: usize = i;
            while i < n && !separates(text[i])
                invariant
                    n == text@.len(),
                    start <= i <= n,
                    start < n,
                    !is_separator(text@[start as int]),
                    forall|p: int| start <= p < i ==> !is_separator(#[trigger] text@[p]),
                decreases n - i,
            {
                i += 1;
            }
            let span = Span { start, end: i };
            let ghost before = spans@;
            spans.push(span);
            proof {
                assert(start < i);
                assert(is_token(text@, span));
                assert forall|k: int| 0 <= k < spans@.len() implies is_token(
                    text@,
                    #[trigger] spans@[k],
                ) by {
                    if k < before.len() {
                        assert(spans@[k] == before[k]);
                    }
                }
                assert forall|p: int|
                    0 <= p < i && !is_separator(#[trigger] text@[p]) implies exists|k: int|
                    0 <= k < spans@.len() && (#[trigger] spans@[k]).start <= p < spans@[k].end by {
                    if p < start {
                        let k = choose|k: int|
                            0 <= k < before.len() && (#[trigger] before[k]).start <= p
                                < before[k].end;
                        assert(spans@[k] == before[k]);
                    } else {
                        assert(spans@[before.len() as int] == span);
                    }
                }
            }
            if i < n {
                i += 1;
            }
        }
    }
    spans
}

/// The bytes of `text` that `span` covers.
pub fn token_bytes(text: &[u8], span: Span) -> (token: Vec<u8>)
    requires
        span.start <= span.end <= text@.len(),
    ensures
        token@ == text@.subrange(span.start as int, span.end as int),
{
    let mut token: Vec<u8> = Vec::new();
    let mut i: usize = span.start;
    while i < span.end
        invariant
            span.start <= i <= span.end <= text@.len(),
            token@ == text@.subrange(span.start as int, i as int),
        decreases span.end - i,
    {
        token.push(text[i]);
        assert(text@.subrange(span.start as int, i + 1) =~= text@.subrange(
            span.start as int,
            i as int,
        ).push(text@[i as int]));
        i += 1;
    }
    token
}

/// Two tokens that share a byte are one and the same.
pub proof fn lemma_tokens_sharing_a_byte(text: Seq<u8>, a: Span, b: Span, i: int)
    requires
        is_token(text, a),
        is_token(text, b),
        a.start <= i < a.end,
        b.start <= i < b.end,
    ensures
        a == b,
{
    if a.start < b.start {
        assert(!is_separator(text[b.start - 1]));
    }
    if b.start < a.start {
        assert(!is_separator(text[a.start - 1]));
    }
    if a.end < b.end {
        assert(!is_separator(text[a.end as int]));
    }
    if b.end < a.end {
        assert(!is_separator(text[b.end as int]));
    }
}

/// Two tokenizations of a text agree on every token that the first has.
proof fn lemma_tokenizations_agree_at(text: Seq<u8>, first: Seq<Span>, second: Seq<Span>, k: int)
    requires
        is_tokenization(text, first),
        is_tokenization(text, second),
        0 <= k < first.len(),
    ensures
        k < second.len(),
        second[k] == first[k],
    decreases k,
{
    let x = first[k];
    assert(is_token(text, x));
    assert(!is_separator(text[x.start as int]));
    let m = choose|m: int|
        0 <= m < second.len() && (#[trigger] second[m]).start <= x.start < second[m].end;
    assert(is_token(text, second[m]));
    lemma_tokens_sharing_a_byte(text, x, second[m], x.start as int);
    if m < k {
        lemma_tokenizations_agree_at(text, first, second, m);
        assert(first[m].end < first[k].start);
    } else if m > k {
        let z = second[k];
        assert(is_token(text, z));
        assert(z.end < second[m].start);
        assert(!is_separator(text[z.start as int]));
        let n = choose|n: int|
            0 <= n < first.len() && (#[trigger] first[n]).start <= z.start < first[n].end;
        assert(is_token(text, first[n]));
        lemma_tokens_sharing_a_byte(text, z, first[n], z.start as int);
        if n < k {
            lemma_tokenizations_agree_at(text, first, second, n);
            assert(second[n].end < second[k].start);
        } else if n > k {
            assert(first[k].end < first[n].start);
        }
    }
}

/// A text has one tokenization.
pub proof fn lemma_tokenization_is_unique(text: Seq<u8>, first: Seq<Span>, second: Seq<Span>)
    requires
        is_tokenization(text, first),
        is_tokenization(text, second),
    ensures
        first == second,
{
    if first.len() > 0 {
        lemma_tokenizations_agree_at(text, first, second, first.len() - 1);
    }
    if second.len() > 0 {
        lemma_tokenizations_agree_at(text, second, first, second.len() - 1);
    }
    assert forall|k: int| 0 <= k < first.len() implies first[k] == second[k] by {
        lemma_tokenizations_agree_at(text, first, second, k);
    }
    assert(first =~= second);
}

/// The position of the first token that could not be read; `parsed.len()`
/// when every token was read.
pub open spec fn first_unread(parsed: Seq<Option<u32>>) -> int
    decreases parsed.len(),
{
    if parsed.len() == 0 {
        0
    } else if parsed[0] is None {
        0
    } else {
        1 + first_unread(parsed.drop_first())
    }
}

/// `first_unread` is in range, points at a token that could not be read if
/// there is one, and every token before it was read.
pub proof fn lemma_first_unread(parsed: Seq<Option<u32>>)
    ensures
        0 <= first_unread(parsed) <= parsed.len(),
        first_unread(parsed) < parsed.len() ==> parsed[first_unread(parsed)] is None,
        forall|j: int| 0 <= j < first_unread(parsed) ==> parsed[j] is Some,
    decreases parsed.len(),
{
    if parsed.len() > 0 && parsed[0] is Some {
        let rest = parsed.drop_first();
        lemma_first_unread(rest);
        assert forall|j: int| 0 <= j < first_unread(parsed) implies parsed[j] is Some by {
            if j > 0 {
                assert(parsed[j] == rest[j - 1]);
            }
        }
        if first_unread(parsed) < parsed.len() {
            assert(parsed[first_unread(parsed)] == rest[first_unread(rest)]);
        }
    }
}

/// A position that holds an unread token after nothing but read ones is
/// `first_unread`; so is the length when every token was read.
pub proof fn lemma_first_unread_is(parsed: Seq<Option<u32>>, at: int)
    requires
        0 <= at <= parsed.len(),
        at < parsed.len() ==> parsed[at] is None,
        forall|j: int| 0 <= j < at ==> parsed[j] is Some,
    ensures
        first_unread(parsed) == at,
{
    lemma_first_unread(parsed);
    let found = first_unread(parsed);
    if found < at {
        assert(parsed[found] is Some);
    } else if found > at {
        assert(parsed[at] is Some);
    }
}

/// The values of a file whose tokens were read one by one. A token that
/// could not be read (`None`) fails the whole file with `ParseError` and
/// the position of the first such token.
pub fn collect_values(parsed: &[Option<u32>]) -> (result: Result<Vec<u32>, Error>)
    ensures
        result is Ok <==> first_unread(parsed@) == parsed@.len(),
        result matches Err(e) ==> e == (Error::ParseError {
            token: first_unread(parsed@) as usize,
        }),
        result matches Ok(values) ==> {
            &&& values@.len() == parsed@.len()
            &&& forall|i: int| 0 <= i < parsed@.len() ==> parsed@[i] == Some(#[trigger] values@[i])
        },
{
    let mut values: Vec<u32> = Vec::new();
    let mut i: usize = 0;
    while i < parsed.len()
        invariant
            i <= parsed@.len(),
            values@.len() == i,
            forall|j: int| 0 <= j < i ==> parsed@[j] == Some(#[trigger] values@[j]),
        decreases parsed@.len() - i,
    {
        match parsed[i] {
            Some(value) => {
                values.push(value);
            },
            None => {
                proof {
                    assert forall|j: int| 0 <= j < i implies parsed@[j] is Some by {
                        assert(parsed@[j] == Some(values@[j]));
                    }
                    lemma_first_unread_is(parsed@, i as int);
                }
                return Err(Error::ParseError { token: i });
            },
        }
        i += 1;
    }
    proof {
        assert forall|j: int| 0 <= j < i implies parsed@[j] is Some by {
            assert(parsed@[j] == Some(values@[j]));
        }
        lemma_first_unread_is(parsed@, parsed@.len() as int);
    }
    Ok(values)
}

} // verus!
