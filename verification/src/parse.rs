//! Reading macro arguments: a comma-separated list of expressions, and
//! integer literals.
use vstd::prelude::*;

verus! {

/// The texts of a sequence of strings.
pub open spec fn texts(v: Seq<String>) -> Seq<Seq<char>> {
    v.map_values(|s: String| s@)
}

/// Splits `input` into expressions with `syn`.
///
/// Calls `Parser::parse_str` on `Punctuated::<syn::Expr, Comma>::parse_terminated`,
/// which parses the whole input as zero or more expressions separated by
/// commas, and prints each expression with `ToTokens::to_token_stream`.
/// Nothing is claimed of the outcome: how the input is lexed and how the
/// expressions and error messages are printed depends on whether the code
/// runs inside a procedural macro (`proc_macro2` picks the compiler's
/// backend there and its own elsewhere), so the same text need not give the
/// same result in every process.
#[verifier::external_body]
pub(crate) fn split_exprs(input: &str) -> (r: Result<Vec<String>, String>) {
    let parser = syn::punctuated::Punctuated::<syn::Expr, syn::token::Comma>::parse_terminated;
    match syn::parse::Parser::parse_str(parser, input) {
        Ok(list) => {
            let mut out = Vec::new();
            for e in list {
                out.push(quote::ToTokens::to_token_stream(&e).to_string());
            }
            Ok(out)
        },
        Err(e) => Err(e.to_string()),
    }
}

/// The decimal digits `0` to `9`.
pub open spec fn is_digit(c: char) -> bool {
    '0' <= c && c <= '9'
}

/// The value of a string of decimal digits.
pub open spec fn digits_value(s: Seq<char>) -> nat
    decreases s.len(),
{
    if s.len() == 0 {
        0
    } else {
        digits_value(s.drop_last()) * 10 + ((s.last() as u32) - ('0' as u32)) as nat
    }
}

/// The digits of an unsigned integer in text: all of it, or all after a
/// leading `+`.
pub open spec fn unsigned_digits(s: Seq<char>) -> Seq<char> {
    if s.len() > 0 && s[0] == '+' {
        s.drop_first()
    } else {
        s
    }
}

/// `s` is the text of an unsigned integer: digits, with an optional leading `+`.
pub open spec fn is_unsigned_text(s: Seq<char>) -> bool {
    let d = unsigned_digits(s);
    d.len() > 0 && forall|i: int| 0 <= i < d.len() ==> is_digit(#[trigger] d[i])
}

/// The value of an integer literal's text, as `str::parse::<usize>` reads
/// it: `None` unless it is an unsigned integer that fits in a `usize`.
pub fn parse_usize(text: &str) -> (r: Option<usize>)
    ensures
        r is Some <==> (is_unsigned_text(text@) && digits_value(unsigned_digits(text@))
            <= usize::MAX),
        r matches Some(v) ==> v == digits_value(unsigned_digits(text@)),
{
    let n = text.unicode_len();
    let ghost d = unsigned_digits(text@);
    let start: usize = if n > 0 && text.get_char(0) == '+' {
        1
    } else {
        0
    };
    assert(d =~= text@.subrange(start as int, n as int));
    if start >= n {
        return None;
    }
    let mut value: usize = 0;
    let mut i: usize = start;
    while i < n
        invariant
            start <= i <= n,
            n == text@.len(),
            d == text@.subrange(start as int, n as int),
            d == unsigned_digits(text@),
            forall|j: int| 0 <= j < i - start ==> is_digit(#[trigger] d[j]),
            value == digits_value(d.subrange(0, i - start)),
        decreases n - i,
    {
        let c = text.get_char(i);
        if !('0' <= c && c <= '9') {
            assert(!is_digit(d[i - start]));
            return None;
        }
        let digit = (c as u32 - '0' as u32) as usize;
        assert(d.subrange(0, i + 1 - start).drop_last() =~= d.subrange(0, i - start));
        assert(d.subrange(0, i + 1 - start).last() == c);
        match value.checked_mul(10) {
            None => {
                proof {
                    if is_unsigned_text(text@) {
                        lemma_digits_value_grows(d, (i + 1 - start) as nat);
                    }
                }
                return None;
            },
            Some(tens) => match tens.checked_add(digit) {
                None => {
                    proof {
                        if is_unsigned_text(text@) {
                            lemma_digits_value_grows(d, (i + 1 - start) as nat);
                        }
                    }
                    return None;
                },
                Some(next) => {
                    value = next;
                },
            },
        }
        i = i + 1;
    }
    assert(d.subrange(0, n - start) =~= d);
    Some(value)
}

/// A longer prefix of digits has at least the value of a shorter one.
proof fn lemma_digits_value_grows(d: Seq<char>, len: nat)
    requires
        len <= d.len(),
        forall|j: int| 0 <= j < d.len() ==> is_digit(#[trigger] d[j]),
    ensures
        digits_value(d.subrange(0, len as int)) <= digits_value(d),
    decreases d.len() - len,
{
    if len < d.len() {
        lemma_digits_value_grows(d, len + 1);
        assert(d.subrange(0, len + 1 as int).drop_last() =~= d.subrange(0, len as int));
    } else {
        assert(d.subrange(0, len as int) =~= d);
    }
}

} // verus!
