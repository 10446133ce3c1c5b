//! Reading an array text back into numbers, and the proof that this recovers
//! what was rendered.

use vstd::prelude::*;
use vstd::string::*;
use crate::convert::{packed_rows, refusal};
use crate::emit::{array_text, declared_width, joined_values, row_text, rows_text, value_text};
use crate::grid::reshaped;
use crate::options::Options;
use crate::text::{ascii, decimal, lemma_decimal_len, spaces};

verus! {

/// `b` is the character of a decimal digit.
pub open spec fn is_digit(b: u8) -> bool {
    48 <= b <= 57
}

/// How many digits `s` begins with.
pub open spec fn digit_run(s: Seq<u8>) -> nat
    decreases s.len(),
{
    if s.len() > 0 && is_digit(s[0]) {
        1 + digit_run(s.drop_first())
    } else {
        0
    }
}

/// The number that a sequence of digits stands for.
pub open spec fn digits_value(d: Seq<u8>) -> nat
    decreases d.len(),
{
    if d.len() == 0 {
        0
    } else {
        digits_value(d.drop_last()) * 10 + (d.last() - 48) as nat
    }
}

/// `s` without the blanks it begins with.
pub open spec fn without_blanks(s: Seq<u8>) -> Seq<u8>
    decreases s.len(),
{
    if s.len() > 0 && s[0] == 32 {
        without_blanks(s.drop_first())
    } else {
        s
    }
}

/// What follows `lit` in `s`, where `s` begins with `lit`.
pub open spec fn after(s: Seq<u8>, lit: Seq<u8>) -> Option<Seq<u8>> {
    if lit.is_prefix_of(s) {
        Some(s.skip(lit.len() as int))
    } else {
        None
    }
}

/// A number at the start of `s`, blanks before it allowed, and what follows it.
pub open spec fn parse_number(s: Seq<u8>) -> Option<(nat, Seq<u8>)> {
    let t = without_blanks(s);
    let k = digit_run(t);
    if k == 0 {
        None
    } else {
        Some((digits_value(t.take(k as int)), t.skip(k as int)))
    }
}

/// `values` put before the values of a parse that went on after them.
pub open spec fn prepend<T>(values: Seq<T>, more: Option<(Seq<T>, Seq<u8>)>) -> Option<
    (Seq<T>, Seq<u8>),
> {
    match more {
        Some((rest_values, rest)) => Some((values + rest_values, rest)),
        None => None,
    }
}

/// One or more numbers with a comma and a blank between each two, and what
/// follows the last.
pub open spec fn parse_values(s: Seq<u8>) -> Option<(Seq<nat>, Seq<u8>)>
    decreases s.len(),
{
    match parse_number(s) {
        None => None,
        Some((value, rest)) => match after(rest, ascii(", "@)) {
            None => Some((seq![value], rest)),
            Some(more) => if more.len() < s.len() {
                prepend(seq![value], parse_values(more))
            } else {
                None
            },
        },
    }
}

/// What follows the end of a line: a line feed, with or without a comma before it.
pub open spec fn after_line_end(s: Seq<u8>) -> Option<Seq<u8>> {
    match after(s, ascii(",\n"@)) {
        Some(rest) => Some(rest),
        None => after(s, ascii("\n"@)),
    }
}

/// One line of the array: the numbers between its braces, and what follows the line.
pub open spec fn parse_row(s: Seq<u8>) -> Option<(Seq<nat>, Seq<u8>)> {
    match after(s, ascii("    { "@)) {
        None => None,
        Some(body) => {
            let values = if ascii(" }"@).is_prefix_of(body) {
                Some((Seq::<nat>::empty(), body))
            } else {
                parse_values(body)
            };
            match values {
                None => None,
                Some((numbers, rest)) => match after(rest, ascii(" }"@)) {
                    None => None,
                    Some(tail) => match after_line_end(tail) {
                        None => None,
                        Some(next) => Some((numbers, next)),
                    },
                },
            }
        },
    }
}

/// The lines of the array up to the closing line, with which `s` must end.
pub open spec fn parse_rows(s: Seq<u8>) -> Option<Seq<Seq<nat>>>
    decreases s.len(),
{
    if s == ascii("};\n"@) {
        Some(Seq::empty())
    } else {
        match parse_row(s) {
            None => None,
            Some((row, rest)) => if rest.len() < s.len() {
                match parse_rows(rest) {
                    Some(rows) => Some(seq![row] + rows),
                    None => None,
                }
            } else {
                None
            },
        }
    }
}

/// What an array text declares: the two size constants and the numbers of each row.
pub struct ParsedArray {
    pub width: nat,
    pub height: nat,
    pub rows: Seq<Seq<nat>>,
}

/// The array that a text declares, if it is an array text.
pub open spec fn parse_array(s: Seq<u8>) -> Option<ParsedArray> {
    match after(s, ascii("#include <inttypes.h>\n\n#define IMG_WIDTH "@)) {
        None => None,
        Some(s1) => match parse_number(s1) {
            None => None,
            Some((width, s2)) => match after(s2, ascii("\n#define IMG_HEIGHT "@)) {
                None => None,
                Some(s3) => match parse_number(s3) {
                    None => None,
                    Some((height, s4)) => match after(
                        s4,
                        ascii("\n\nstatic const uint8_t img[IMG_HEIGHT][IMG_WIDTH] = {\n"@),
                    ) {
                        None => None,
                        Some(s5) => match parse_rows(s5) {
                            None => None,
                            Some(rows) => Some(ParsedArray { width, height, rows }),
                        },
                    },
                },
            },
        },
    }
}

/// The values of a row as numbers.
pub open spec fn numbers(values: Seq<u8>) -> Seq<nat> {
    Seq::new(values.len(), |i: int| values[i] as nat)
}

/// The values of all rows as numbers.
pub open spec fn number_rows(rows: Seq<Seq<u8>>) -> Seq<Seq<nat>> {
    Seq::new(rows.len(), |r: int| numbers(rows[r]))
}

/// The characters of the short fragments between the numbers.
proof fn lemma_fragments()
    ensures
        ascii(", "@) == seq![44u8, 32u8],
        ascii(" }"@) == seq![32u8, 125u8],
        ascii("\n"@) == seq![10u8],
        ascii(",\n"@) == seq![44u8, 10u8],
        ascii("};\n"@) == seq![125u8, 59u8, 10u8],
        ascii("    { "@) == seq![32u8, 32u8, 32u8, 32u8, 123u8, 32u8],
        ascii("\n#define IMG_HEIGHT "@)[0] == 10u8,
        ascii("\n#define IMG_HEIGHT "@).len() > 0,
        ascii("\n\nstatic const uint8_t img[IMG_HEIGHT][IMG_WIDTH] = {\n"@)[0] == 10u8,
        ascii("\n\nstatic const uint8_t img[IMG_HEIGHT][IMG_WIDTH] = {\n"@).len() > 0,
{
    reveal_strlit(", ");
    reveal_strlit(" }");
    reveal_strlit("\n");
    reveal_strlit(",\n");
    reveal_strlit("};\n");
    reveal_strlit("    { ");
    reveal_strlit("\n#define IMG_HEIGHT ");
    reveal_strlit("\n\nstatic const uint8_t img[IMG_HEIGHT][IMG_WIDTH] = {\n");
    assert(ascii(", "@) =~= seq![44u8, 32u8]);
    assert(ascii(" }"@) =~= seq![32u8, 125u8]);
    assert(ascii("\n"@) =~= seq![10u8]);
    assert(ascii(",\n"@) =~= seq![44u8, 10u8]);
    assert(ascii("};\n"@) =~= seq![125u8, 59u8, 10u8]);
    assert(ascii("    { "@) =~= seq![32u8, 32u8, 32u8, 32u8, 123u8, 32u8]);
}

/// What follows `lit` in `lit + rest` is `rest`.
proof fn lemma_after(lit: Seq<u8>, rest: Seq<u8>)
    ensures
        after(lit + rest, lit) == Some(rest),
{
    assert((lit + rest).subrange(0, lit.len() as int) =~= lit);
    assert((lit + rest).skip(lit.len() as int) =~= rest);
}

/// Blanks before something that is no blank are all that is taken away.
proof fn lemma_without_blanks(k: nat, rest: Seq<u8>)
    requires
        rest.len() == 0 || rest[0] != 32,
    ensures
        without_blanks(spaces(k) + rest) == rest,
    decreases k,
{
    if k == 0 {
        assert(spaces(0) + rest =~= rest);
    } else {
        assert((spaces(k) + rest).drop_first() =~= spaces((k - 1) as nat) + rest);
        lemma_without_blanks((k - 1) as nat, rest);
    }
}

/// Digits before something that is no digit are the whole run.
proof fn lemma_digit_run(d: Seq<u8>, rest: Seq<u8>)
    requires
        forall|i: int| 0 <= i < d.len() ==> is_digit(d[i]),
        rest.len() == 0 || !is_digit(rest[0]),
    ensures
        digit_run(d + rest) == d.len(),
    decreases d.len(),
{
    if d.len() == 0 {
        assert(d + rest =~= rest);
    } else {
        assert((d + rest).drop_first() =~= d.drop_first() + rest);
        lemma_digit_run(d.drop_first(), rest);
    }
}

/// A number written in decimal is made of digits, at least one, and they
/// stand for the number.
proof fn lemma_decimal(n: nat)
    ensures
        decimal(n).len() >= 1,
        forall|i: int| 0 <= i < decimal(n).len() ==> is_digit(#[trigger] decimal(n)[i]),
        digits_value(decimal(n)) == n,
    decreases n,
{
    if n < 10 {
        assert(decimal(n).drop_last() =~= Seq::<u8>::empty());
        assert(digits_value(decimal(n).drop_last()) == 0);
    } else {
        lemma_decimal(n / 10);
        assert(decimal(n).drop_last() =~= decimal(n / 10));
    }
}

/// A number in decimal, after any blanks and before something that is no
/// digit, is read back as that number.
proof fn lemma_parse_number(k: nat, n: nat, rest: Seq<u8>)
    requires
        rest.len() == 0 || !is_digit(rest[0]),
    ensures
        parse_number(spaces(k) + decimal(n) + rest) == Some((n, rest)),
{
    let d = decimal(n);
    lemma_decimal(n);
    assert(is_digit(d[0]));
    assert(spaces(k) + d + rest =~= spaces(k) + (d + rest));
    lemma_without_blanks(k, d + rest);
    lemma_digit_run(d, rest);
    assert((d + rest).take(d.len() as int) =~= d);
    assert((d + rest).skip(d.len() as int) =~= rest);
}

/// A value as it is written is blanks and then its decimal digits; where it
/// begins with a blank, a blank or a digit comes next.
proof fn lemma_value_text(value: u8, compact: bool) -> (k: nat)
    ensures
        value_text(value, compact) == spaces(k) + decimal(value as nat),
        value_text(value, compact).len() >= 1,
        value_text(value, compact)[0] != 32 || (value_text(value, compact).len() >= 2
            && value_text(value, compact)[1] != 125),
{
    let d = decimal(value as nat);
    lemma_decimal(value as nat);
    lemma_decimal_len(value as nat);
    let k: nat = if compact && d.len() < 3 {
        (3 - d.len()) as nat
    } else {
        0
    };
    assert(spaces(0) + d =~= d);
    let t = value_text(value, compact);
    assert(t == spaces(k) + d);
    assert(is_digit(d[0]));
    if k == 1 {
        assert(t[1] == d[0]);
    }
    k
}

/// One written value that a separator follows: the reading goes on behind the separator.
proof fn lemma_value_then_more(value: u8, compact: bool, more: Seq<u8>)
    ensures
        parse_values(value_text(value, compact) + ascii(", "@) + more) == prepend(
            seq![value as nat],
            parse_values(more),
        ),
{
    lemma_fragments();
    let k = lemma_value_text(value, compact);
    let rest = ascii(", "@) + more;
    let s = value_text(value, compact) + ascii(", "@) + more;
    assert(s =~= spaces(k) + decimal(value as nat) + rest);
    lemma_parse_number(k, value as nat, rest);
    lemma_after(ascii(", "@), more);
}

/// One written value that no separator follows ends the reading.
proof fn lemma_value_then_stop(value: u8, compact: bool, rest: Seq<u8>)
    requires
        rest.len() == 0 || !is_digit(rest[0]),
        !ascii(", "@).is_prefix_of(rest),
    ensures
        parse_values(value_text(value, compact) + rest) == Some((seq![value as nat], rest)),
{
    let k = lemma_value_text(value, compact);
    lemma_parse_number(k, value as nat, rest);
}

/// The first `n` written values of a row, with a separator behind them: they
/// are read back, and the reading goes on behind the separator.
proof fn lemma_values_then_more(values: Seq<u8>, compact: bool, n: nat, more: Seq<u8>)
    requires
        1 <= n <= values.len(),
    ensures
        parse_values(joined_values(values, compact, n) + ascii(", "@) + more) == prepend(
            numbers(values.take(n as int)),
            parse_values(more),
        ),
    decreases n,
{
    let sep = ascii(", "@);
    let last = value_text(values[n - 1], compact);
    if n == 1 {
        lemma_value_then_more(values[0], compact, more);
        assert(numbers(values.take(1)) =~= seq![values[0] as nat]);
    } else {
        let inner = last + sep + more;
        assert(joined_values(values, compact, n) + sep + more =~= joined_values(
            values,
            compact,
            (n - 1) as nat,
        ) + sep + inner);
        lemma_values_then_more(values, compact, (n - 1) as nat, inner);
        lemma_value_then_more(values[n - 1], compact, more);
        assert(numbers(values.take(n - 1)) + seq![values[n - 1] as nat] =~= numbers(
            values.take(n as int),
        ));
    }
}

/// The first `n` written values of a row, with no separator behind them, are
/// read back, and nothing more.
proof fn lemma_values_then_stop(values: Seq<u8>, compact: bool, n: nat, rest: Seq<u8>)
    requires
        1 <= n <= values.len(),
        rest.len() == 0 || !is_digit(rest[0]),
        !ascii(", "@).is_prefix_of(rest),
    ensures
        parse_values(joined_values(values, compact, n) + rest) == Some(
            (numbers(values.take(n as int)), rest),
        ),
{
    let sep = ascii(", "@);
    let last = value_text(values[n - 1], compact);
    if n == 1 {
        lemma_value_then_stop(values[0], compact, rest);
        assert(numbers(values.take(1)) =~= seq![values[0] as nat]);
    } else {
        let inner = last + rest;
        assert(joined_values(values, compact, n) + rest =~= joined_values(
            values,
            compact,
            (n - 1) as nat,
        ) + sep + inner);
        lemma_values_then_more(values, compact, (n - 1) as nat, inner);
        lemma_value_then_stop(values[n - 1], compact, rest);
        assert(numbers(values.take(n - 1)) + seq![values[n - 1] as nat] =~= numbers(
            values.take(n as int),
        ));
    }
}

/// Written values begin with a digit, or with a blank that a blank or a digit follows.
proof fn lemma_values_start(values: Seq<u8>, compact: bool, n: nat)
    requires
        1 <= n <= values.len(),
    ensures
        joined_values(values, compact, n).len() >= 1,
        joined_values(values, compact, n)[0] != 32 || (joined_values(values, compact, n).len() >= 2
            && joined_values(values, compact, n)[1] != 125),
    decreases n,
{
    if n == 1 {
        lemma_value_text(values[0], compact);
    } else {
        lemma_values_start(values, compact, (n - 1) as nat);
    }
}

/// A written row is read back, whatever follows its line.
proof fn lemma_parse_row(values: Seq<u8>, compact: bool, last: bool, next: Seq<u8>)
    ensures
        parse_row(row_text(values, compact, last) + next) == Some((numbers(values), next)),
        row_text(values, compact, last).len() > 0,
        row_text(values, compact, last)[0] == 32,
{
    lemma_fragments();
    let open = ascii("    { "@);
    let close = ascii(" }"@);
    let end = if last {
        ascii("\n"@)
    } else {
        ascii(",\n"@)
    };
    let joined = joined_values(values, compact, values.len());
    let tail = end + next;
    let rest = close + tail;
    let body = joined + rest;
    assert(row_text(values, compact, last) + next =~= open + body);
    lemma_after(open, body);
    lemma_after(close, tail);
    lemma_after(end, next);
    assert(after_line_end(tail) == Some(next)) by {
        if last {
            assert(!ascii(",\n"@).is_prefix_of(tail)) by {
                if ascii(",\n"@).is_prefix_of(tail) {
                    assert(tail.subrange(0, 2)[0] == ascii(",\n"@)[0]);
                }
            }
        }
    }
    assert(!ascii(", "@).is_prefix_of(rest)) by {
        if ascii(", "@).is_prefix_of(rest) {
            assert(rest.subrange(0, 2)[0] == ascii(", "@)[0]);
        }
    }
    if values.len() == 0 {
        assert(body =~= rest);
        assert(close.is_prefix_of(body)) by {
            assert(body.subrange(0, close.len() as int) =~= close);
        }
        assert(numbers(values) =~= Seq::<nat>::empty());
    } else {
        lemma_values_start(values, compact, values.len());
        assert(!close.is_prefix_of(body)) by {
            if close.is_prefix_of(body) {
                assert(body.subrange(0, 2)[0] == close[0]);
                assert(body.subrange(0, 2)[1] == close[1]);
            }
        }
        lemma_values_then_stop(values, compact, values.len(), rest);
        assert(values.take(values.len() as int) =~= values);
    }
}

/// `rows` put before the rows of a parse that went on after them.
spec fn prepend_rows(rows: Seq<Seq<nat>>, more: Option<Seq<Seq<nat>>>) -> Option<
    Seq<Seq<nat>>,
> {
    match more {
        Some(rest_rows) => Some(rows + rest_rows),
        None => None,
    }
}

/// One written row is read back, and the reading goes on behind its line.
proof fn lemma_row_then_more(values: Seq<u8>, compact: bool, last: bool, next: Seq<u8>)
    ensures
        parse_rows(row_text(values, compact, last) + next) == prepend_rows(
            seq![numbers(values)],
            parse_rows(next),
        ),
{
    lemma_fragments();
    lemma_parse_row(values, compact, last, next);
    let s = row_text(values, compact, last) + next;
    assert(s[0] == 32);
    assert(s != ascii("};\n"@));
    assert(next.len() < s.len());
}

/// The first `n` written rows are read back, and the reading goes on behind them.
proof fn lemma_parse_rows(rows: Seq<Seq<u8>>, compact: bool, n: nat, next: Seq<u8>)
    requires
        n <= rows.len(),
    ensures
        parse_rows(rows_text(rows, compact, n) + next) == prepend_rows(
            number_rows(rows.take(n as int)),
            parse_rows(next),
        ),
    decreases n,
{
    if n == 0 {
        assert(rows_text(rows, compact, 0) + next =~= next);
        assert(number_rows(rows.take(0)) =~= Seq::<Seq<nat>>::empty());
        if parse_rows(next) is Some {
            assert(Seq::<Seq<nat>>::empty() + parse_rows(next)->Some_0 =~= parse_rows(next)->Some_0);
        }
    } else {
        let line = row_text(rows[n - 1], compact, n == rows.len());
        let inner = line + next;
        let before = rows_text(rows, compact, (n - 1) as nat);
        assert(rows_text(rows, compact, n) == before + line);
        assert(before + line + next =~= before + inner);
        lemma_parse_rows(rows, compact, (n - 1) as nat, inner);
        lemma_row_then_more(rows[n - 1], compact, n == rows.len(), next);
        assert(number_rows(rows.take(n - 1)) + seq![numbers(rows[n - 1])] =~= number_rows(
            rows.take(n as int),
        ));
        if parse_rows(next) is Some {
            let more = parse_rows(next)->Some_0;
            assert(number_rows(rows.take(n - 1)) + (seq![numbers(rows[n - 1])] + more)
                =~= number_rows(rows.take(n as int)) + more);
        }
    }
}

/// Reading a rendered array text back gives the declared width, the height
/// and every value that was rendered, row by row.
pub proof fn lemma_round_trip(width: nat, height: nat, compact: bool, rows: Seq<Seq<u8>>)
    ensures
        parse_array(array_text(width, height, compact, rows)) == Some(
            ParsedArray {
                width: declared_width(width, compact),
                height,
                rows: number_rows(rows),
            },
        ),
{
    let h1 = ascii("#include <inttypes.h>\n\n#define IMG_WIDTH "@);
    let h2 = ascii("\n#define IMG_HEIGHT "@);
    let h3 = ascii("\n\nstatic const uint8_t img[IMG_HEIGHT][IMG_WIDTH] = {\n"@);
    let w = declared_width(width, compact);
    let closing = ascii("};\n"@);
    let s5 = rows_text(rows, compact, rows.len()) + closing;
    let s4 = h3 + s5;
    let s3 = decimal(height) + s4;
    let s2 = h2 + s3;
    let s1 = decimal(w) + s2;
    let s = array_text(width, height, compact, rows);
    assert(after(s, h1) == Some(s1)) by {
        assert(s =~= h1 + s1);
        lemma_after(h1, s1);
    }
    assert(parse_number(s1) == Some((w, s2))) by {
        lemma_fragments();
        assert(s1 =~= spaces(0) + decimal(w) + s2);
        lemma_parse_number(0, w, s2);
    }
    assert(after(s2, h2) == Some(s3)) by {
        lemma_after(h2, s3);
    }
    assert(parse_number(s3) == Some((height, s4))) by {
        lemma_fragments();
        assert(s3 =~= spaces(0) + decimal(height) + s4);
        lemma_parse_number(0, height, s4);
    }
    assert(after(s4, h3) == Some(s5)) by {
        lemma_after(h3, s5);
    }
    assert(parse_rows(s5) == Some(number_rows(rows))) by {
        lemma_parse_rows(rows, compact, rows.len(), closing);
        assert(rows.take(rows.len() as int) =~= rows);
        assert(number_rows(rows) + Seq::<Seq<nat>>::empty() =~= number_rows(rows));
    }
}

/// The text of a conversion that was not refused reads back as an array of
/// the declared width and height: it has `height` rows of `declared_width`
/// values each, and every value is the one that was packed.
pub proof fn lemma_converted_round_trip(buf: Seq<u8>, width: nat, height: nat, options: Options)
    requires
        refusal(buf.len(), width, height, options) is None,
    ensures
        ({
            let packed = packed_rows(reshaped(buf, width, height), options);
            let parsed = parse_array(array_text(width, height, options.compact, packed));
            &&& parsed is Some
            &&& parsed->Some_0.width == declared_width(width, options.compact)
            &&& parsed->Some_0.height == height
            &&& parsed->Some_0.rows.len() == parsed->Some_0.height
            &&& forall|r: int|
                0 <= r < height ==> (#[trigger] parsed->Some_0.rows[r]).len()
                    == parsed->Some_0.width
            &&& forall|r: int, c: int|
                0 <= r < height && 0 <= c < declared_width(width, options.compact)
                    ==> parsed->Some_0.rows[r][c] == packed[r][c]
        }),
{
    let packed = packed_rows(reshaped(buf, width, height), options);
    lemma_round_trip(width, height, options.compact, packed);
}

} // verus!
