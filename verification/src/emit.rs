//! Rendering the packed rows as the text of an array declaration.

use vstd::prelude::*;
use vstd::string::*;
use crate::text::{ascii, decimal, push_aligned, push_decimal, push_text, right_aligned};

verus! {

/// The rows as sequences of values.
pub open spec fn row_views(rows: Seq<Vec<u8>>) -> Seq<Seq<u8>> {
    Seq::new(rows.len(), |r: int| rows[r]@)
}

/// The width that the declaration gives: in bytes where the rows are
/// packed, else in pixels.
pub open spec fn declared_width(width: nat, compact: bool) -> nat {
    if compact {
        width / 8
    } else {
        width
    }
}

/// One value as it is written: packed bytes are right-aligned in three
/// characters, single bits are not padded.
pub open spec fn value_text(value: u8, compact: bool) -> Seq<u8> {
    if compact {
        right_aligned(decimal(value as nat), 3)
    } else {
        decimal(value as nat)
    }
}

/// The first `n` values of a row, with a comma and a blank between each two.
pub open spec fn joined_values(values: Seq<u8>, compact: bool, n: nat) -> Seq<u8>
    decreases n,
{
    if n == 0 {
        Seq::empty()
    } else if n == 1 {
        value_text(values[0], compact)
    } else {
        joined_values(values, compact, (n - 1) as nat) + ascii(", "@) + value_text(
            values[n - 1],
            compact,
        )
    }
}

/// One line of the array: the values of a row in braces, followed by a comma
/// unless the row is the last.
pub open spec fn row_text(values: Seq<u8>, compact: bool, last: bool) -> Seq<u8> {
    ascii("    { "@) + joined_values(values, compact, values.len()) + ascii(" }"@) + if last {
        ascii("\n"@)
    } else {
        ascii(",\n"@)
    }
}

/// The lines of the first `n` rows.
pub open spec fn rows_text(rows: Seq<Seq<u8>>, compact: bool, n: nat) -> Seq<u8>
    decreases n,
{
    if n == 0 {
        Seq::empty()
    } else {
        rows_text(rows, compact, (n - 1) as nat) + row_text(rows[n - 1], compact, n == rows.len())
    }
}

/// What stands before the rows: the size constants and the opening of the array.
pub open spec fn header_text(width: nat, height: nat) -> Seq<u8> {
    ascii("#include <inttypes.h>\n\n#define IMG_WIDTH "@) + decimal(width) + ascii(
        "\n#define IMG_HEIGHT "@,
    ) + decimal(height) + ascii(
        "\n\nstatic const uint8_t img[IMG_HEIGHT][IMG_WIDTH] = {\n"@,
    )
}

/// The whole text: header, one line for each row, and the closing line.
pub open spec fn array_text(width: nat, height: nat, compact: bool, rows: Seq<Seq<u8>>) -> Seq<
    u8,
> {
    header_text(declared_width(width, compact), height) + rows_text(rows, compact, rows.len())
        + ascii("};\n"@)
}

/// Appends the values of a row, separated by a comma and a blank.
fn push_values(out: &mut Vec<u8>, values: &[u8], compact: bool)
    ensures
        final(out)@ == old(out)@ + joined_values(values@, compact, values@.len()),
{
    let mut i: usize = 0;
    assert(out@ =~= old(out)@ + joined_values(values@, compact, 0));
    while i < values.len()
        invariant
            i <= values@.len(),
            out@ == old(out)@ + joined_values(values@, compact, i as nat),
        decreases values@.len() - i,
    {
        let ghost before = out@;
        if i > 0 {
            proof {
                reveal_strlit(", ");
            }
            push_text(out, ", ");
        }
        if compact {
            push_aligned(out, values[i]);
        } else {
            push_decimal(out, values[i] as usize);
        }
        i += 1;
        assert(out@ =~= old(out)@ + joined_values(values@, compact, i as nat));
    }
}

/// Renders the array declaration for an image of `width` by `height` pixels
/// whose rows have been packed into `rows`.
pub fn render(width: usize, height: usize, compact: bool, rows: &[Vec<u8>]) -> (text: Vec<u8>)
    ensures
        text@ == array_text(width as nat, height as nat, compact, row_views(rows@)),
{
    let mut out: Vec<u8> = Vec::new();
    proof {
        reveal_strlit("#include <inttypes.h>\n\n#define IMG_WIDTH ");
        reveal_strlit("\n#define IMG_HEIGHT ");
        reveal_strlit("\n\nstatic const uint8_t img[IMG_HEIGHT][IMG_WIDTH] = {\n");
        reveal_strlit("    { ");
        reveal_strlit(" }");
        reveal_strlit("\n");
        reveal_strlit(",\n");
        reveal_strlit("};\n");
    }
    push_text(&mut out, "#include <inttypes.h>\n\n#define IMG_WIDTH ");
    push_decimal(&mut out, if compact { width / 8 } else { width });
    push_text(&mut out, "\n#define IMG_HEIGHT ");
    push_decimal(&mut out, height);
    push_text(&mut out, "\n\nstatic const uint8_t img[IMG_HEIGHT][IMG_WIDTH] = {\n");
    let ghost header = header_text(declared_width(width as nat, compact), height as nat);
    let ghost views = row_views(rows@);
    assert(out@ =~= header + rows_text(views, compact, 0));
    let mut y: usize = 0;
    while y < rows.len()
        invariant
            y <= rows@.len(),
            views == row_views(rows@),
            is_ascii("    { "),
            is_ascii(" }"),
            is_ascii("\n"),
            is_ascii(",\n"),
            out@ == header + rows_text(views, compact, y as nat),
        decreases rows@.len() - y,
    {
        push_text(&mut out, "    { ");
        push_values(&mut out, rows[y].as_slice(), compact);
        push_text(&mut out, " }");
        if y + 1 == rows.len() {
            push_text(&mut out, "\n");
        } else {
            push_text(&mut out, ",\n");
        }
        y += 1;
        assert(out@ =~= header + rows_text(views, compact, y as nat));
    }
    push_text(&mut out, "};\n");
    out
}

} // verus!
