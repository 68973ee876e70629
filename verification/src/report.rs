//! The lines of the report and their layout beside the image.

use vstd::prelude::*;
use vstd::string::StringExecFns;
use owo_colors::OwoColorize;
use text_splitter::TextSplitter;
use crate::text::{decimal, lines_of, push_spaces, spaces, split_lines};
use crate::truecolor::{calc_truecolor, gradient, lemma_ramp_range, RGB};

verus! {

/// The escape sequence that switches the text colour to bright magenta.
pub const MAGENTA_ON: &'static str = "\u{1b}[95m";

/// The escape sequence that switches the text colour back.
pub const COLOR_OFF: &'static str = "\u{1b}[39m";

/// Columns that a continuation takes for its branch sign, and that the first
/// part of a line leaves free in turn.
pub const BRANCH_WIDTH: usize = 3;

/// One line of the report: a text, a label that may stand before it, and the
/// number of columns by which it is set in.
#[derive(Clone)]
pub struct TermLine {
    pub label: Option<String>,
    pub text: String,
    pub newline_left_pad: usize,
}

/// `text` in bright magenta.
pub open spec fn in_magenta(text: Seq<char>) -> Seq<char> {
    MAGENTA_ON@ + text + COLOR_OFF@
}

/// A line as it is written: its text, behind the coloured label and a colon
/// where it has a label.
pub open spec fn written(label: Option<Seq<char>>, text: Seq<char>) -> Seq<char> {
    match label {
        Some(l) => in_magenta(l) + ": "@ + text,
        None => text,
    }
}

/// The parts that the `text_splitter` crate makes of `text` when it is asked
/// for parts of `capacity` characters.
pub uninterp spec fn splitter_chunks(capacity: nat, text: Seq<char>) -> Seq<Seq<char>>;

/// What is printed for one line, given the parts into which its text was
/// split: nothing where there is no part; the text itself where it is one
/// part; else the parts one below the other, the later ones behind a branch
/// sign and the last behind a corner. Everything is set in by `pad` columns.
pub open spec fn wrapped(text: Seq<char>, pad: nat, chunks: Seq<Seq<char>>) -> Seq<Seq<char>> {
    if chunks.len() == 1 {
        seq![spaces(pad) + text]
    } else {
        Seq::new(
            chunks.len(),
            |i: int|
                if i == 0 {
                    spaces(pad) + chunks[i]
                } else if i == chunks.len() - 1 {
                    spaces(pad) + " ╰ "@ + chunks[i]
                } else {
                    spaces(pad) + " │ "@ + chunks[i]
                },
        )
    }
}

impl TermLine {
    /// The line as it is written.
    pub open spec fn written(self) -> Seq<char> {
        written(
            match self.label {
                Some(l) => Some(l@),
                None => None,
            },
            self.text@,
        )
    }

    /// What is printed for this line where `max_line_size` columns are free.
    pub open spec fn printed(self, max_line_size: nat) -> Seq<Seq<char>> {
        wrapped(
            self.written(),
            self.newline_left_pad as nat,
            splitter_chunks(
                (max_line_size - self.newline_left_pad - BRANCH_WIDTH) as nat,
                self.written(),
            ),
        )
    }

    /// Writes the line.
    pub fn to_text(&self) -> (line: String)
        ensures
            line@ == self.written(),
    {
        match &self.label {
            Some(label) => {
                let mut line = bright_magenta(label.as_str());
                line.append(": ");
                line.append(self.text.as_str());
                line
            },
            None => self.text.clone(),
        }
    }
}

/// What is printed for a list of lines, one after the other.
pub open spec fn printed_lines(lines: Seq<TermLine>, max_line_size: nat) -> Seq<Seq<char>>
    decreases lines.len(),
{
    if lines.len() == 0 {
        Seq::empty()
    } else {
        printed_lines(lines.drop_last(), max_line_size) + lines.last().printed(max_line_size)
    }
}

/// The views of a list of texts.
pub open spec fn texts(lines: Seq<String>) -> Seq<Seq<char>> {
    Seq::new(lines.len(), |i: int| lines[i]@)
}

/// `OwoColorize::bright_magenta` of `owo_colors`, formatted: the text between
/// the escape sequence for a bright magenta foreground and the one that
/// resets the foreground.
#[verifier::external_body]
pub(crate) fn bright_magenta(text: &str) -> (colored: String)
    ensures
        colored@ == in_magenta(text@),
{
    format!("{}", text.bright_magenta())
}

/// `TextSplitter::new` of `text_splitter` with `capacity` characters, and
/// `TextSplitter::chunks` on `text`, each part copied out. The parts depend
/// on the two arguments alone. The splitter takes the size of a part from
/// the capacity, which it cannot do with a capacity of nothing.
#[verifier::external_body]
pub(crate) fn text_chunks(capacity: usize, text: &str) -> (chunks: Vec<String>)
    requires
        capacity >= 1,
    ensures
        texts(chunks@) == splitter_chunks(capacity as nat, text@),
{
    let mut chunks = Vec::new();
    for chunk in TextSplitter::new(capacity).chunks(text) {
        chunks.push(chunk.to_string());
    }
    chunks
}

/// Appends to `out` what is printed for one line, given the parts into which
/// its text was split.
pub fn wrap(out: &mut Vec<String>, text: &str, pad: usize, chunks: &Vec<String>)
    ensures
        texts(final(out)@) == texts(old(out)@) + wrapped(text@, pad as nat, texts(chunks@)),
{
    let ghost before = texts(out@);
    let ghost parts = texts(chunks@);
    if chunks.len() == 1 {
        let mut line = String::new();
        push_spaces(&mut line, pad);
        line.append(text);
        out.push(line);
        assert(texts(out@) =~= before + wrapped(text@, pad as nat, parts));
    } else {
        let mut i: usize = 0;
        assert(texts(out@) =~= before + wrapped(text@, pad as nat, parts).take(0));
        while i < chunks.len()
            invariant
                i <= chunks@.len(),
                chunks@.len() != 1,
                parts == texts(chunks@),
                texts(out@) == before + wrapped(text@, pad as nat, parts).take(i as int),
            decreases chunks@.len() - i,
        {
            let ghost so_far = texts(out@);
            let mut line = String::new();
            push_spaces(&mut line, pad);
            if i > 0 {
                if i == chunks.len() - 1 {
                    line.append(" ╰ ");
                } else {
                    line.append(" │ ");
                }
            }
            line.append(chunks[i].as_str());
            out.push(line);
            proof {
                let all = wrapped(text@, pad as nat, parts);
                assert(out@[out@.len() - 1]@ =~= all[i as int]);
                assert(texts(out@) =~= so_far.push(all[i as int]));
                assert(all.take(i + 1) =~= all.take(i as int).push(all[i as int]));
            }
            i = i + 1;
        }
        assert(wrapped(text@, pad as nat, parts).take(i as int) =~= wrapped(
            text@,
            pad as nat,
            parts,
        ));
    }
}

/// Whether every line has room where `max_line_size` columns are free: room
/// for its indentation, a branch sign and at least one character.
pub open spec fn lines_fit(lines: Seq<TermLine>, max_line_size: nat) -> bool {
    forall|i: int|
        0 <= i < lines.len() ==> (#[trigger] lines[i]).newline_left_pad + BRANCH_WIDTH
            < max_line_size
}

/// Computes `lines_fit`.
pub fn lines_have_room(lines: &Vec<TermLine>, max_line_size: usize) -> (fit: bool)
    ensures
        fit == lines_fit(lines@, max_line_size as nat),
{
    let mut i: usize = 0;
    while i < lines.len()
        invariant
            i <= lines@.len(),
            forall|k: int|
                0 <= k < i ==> (#[trigger] lines@[k]).newline_left_pad + BRANCH_WIDTH
                    < max_line_size,
        decreases lines@.len() - i,
    {
        let pad = lines[i].newline_left_pad;
        if max_line_size < BRANCH_WIDTH || max_line_size - BRANCH_WIDTH <= pad {
            return false;
        }
        i = i + 1;
    }
    true
}

/// What is printed for the lines of the report where `max_line_size` columns
/// are free beside the image.
pub fn print_lines(lines: &Vec<TermLine>, max_line_size: usize) -> (to_print: Vec<String>)
    requires
        lines_fit(lines@, max_line_size as nat),
    ensures
        texts(to_print@) == printed_lines(lines@, max_line_size as nat),
{
    let mut to_print: Vec<String> = Vec::new();
    let mut i: usize = 0;
    assert(lines@.take(0) =~= Seq::<TermLine>::empty());
    assert(texts(to_print@) =~= Seq::<Seq<char>>::empty());
    while i < lines.len()
        invariant
            i <= lines@.len(),
            lines_fit(lines@, max_line_size as nat),
            texts(to_print@) == printed_lines(lines@.take(i as int), max_line_size as nat),
        decreases lines@.len() - i,
    {
        let line = &lines[i];
        let text = line.to_text();
        let chunks = text_chunks(max_line_size - line.newline_left_pad - BRANCH_WIDTH, text.as_str());
        wrap(&mut to_print, text.as_str(), line.newline_left_pad, &chunks);
        proof {
            assert(lines@.take(i + 1).drop_last() =~= lines@.take(i as int));
            assert(lines@.take(i + 1).last() == lines@[i as int]);
        }
        i = i + 1;
    }
    assert(lines@.take(i as int) =~= lines@);
    to_print
}

/// The columns that are free for text beside an image of `im_w` columns in a
/// terminal of `term_size_x` columns, or `None` where the image is wider
/// than the terminal.
pub fn line_room(term_size_x: u16, im_w: u32) -> (room: Option<usize>)
    ensures
        room == (if im_w <= term_size_x {
            Some((term_size_x - im_w) as usize)
        } else {
            None
        }),
{
    if im_w <= term_size_x as u32 {
        Some((term_size_x as u32 - im_w) as usize)
    } else {
        None
    }
}

/// The width of the image in columns: what is left of half the terminal's
/// width after half the length of the name line, but no more than twice the
/// terminal's height less two rows.
pub open spec fn image_columns(term_size_x: nat, term_size_y: nat, name_len: nat) -> nat {
    let free = if term_size_x / 2 >= name_len / 2 {
        (term_size_x / 2 - name_len / 2) as nat
    } else {
        0
    };
    if free / 2 > term_size_y - 2 {
        ((term_size_y - 2) * 2) as nat
    } else {
        free
    }
}

/// Computes the width of the image for a terminal of at least two rows.
pub fn image_width(term_size_x: u16, term_size_y: u16, name_len: usize) -> (im_w: u32)
    requires
        term_size_y >= 2,
    ensures
        im_w == image_columns(term_size_x as nat, term_size_y as nat, name_len as nat),
{
    let half_width: usize = (term_size_x / 2) as usize;
    let half_name: usize = name_len / 2;
    let free: u32 = if half_width >= half_name {
        (half_width - half_name) as u32
    } else {
        0
    };
    let rows: u32 = (term_size_y - 2) as u32;
    if free / 2 > rows {
        rows * 2
    } else {
        free
    }
}

/// The column at which the text starts: beside the image and one column
/// apart from it, or at the left edge where there is no image; cut to 16 bits
/// as the terminal's coordinates are.
pub open spec fn column_beside(im_w: nat) -> nat {
    (if im_w != 0 {
        im_w + 1
    } else {
        0
    }) % 0x1_0000
}

/// Computes the column at which the text starts.
pub fn text_column(im_w: u32) -> (column: u16)
    requires
        im_w < u32::MAX,
    ensures
        column == column_beside(im_w as nat),
{
    if im_w != 0 {
        ((im_w + 1) % 0x1_0000) as u16
    } else {
        0
    }
}

/// The three channels of a colour as an escape sequence writes them.
pub open spec fn channels(c: RGB) -> Seq<char> {
    decimal(c.r as nat) + ";"@ + decimal(c.g as nat) + ";"@ + decimal(c.b as nat)
}

/// A cell of two pixels, one above the other: a lower half block in the
/// colour `fg` on the background `bg`, each colour switched on before the
/// block and off behind it.
pub open spec fn half_block(bg: RGB, fg: RGB) -> Seq<char> {
    "\u{1b}[38;2;"@ + channels(fg) + "m"@ + "\u{1b}[48;2;"@ + channels(bg) + "m"@ + "▄"@
        + "\u{1b}[49m"@ + COLOR_OFF@
}

/// Row `row` of the truecolor block of `height` rows: twice as many cells as
/// rows, each showing two pixels of a square gradient, the one of pixel row
/// `2 * row` above the one of the pixel row below it.
pub open spec fn truecolor_row(height: nat, row: nat, cells: nat) -> Seq<char>
    decreases cells,
{
    if cells == 0 {
        Seq::empty()
    } else {
        let x = (cells - 1) as nat;
        truecolor_row(height, row, x) + half_block(
            gradient(2 * height, 2 * height, x, 2 * row),
            gradient(2 * height, 2 * height, x, 2 * row + 1),
        )
    }
}

/// `OwoColorize::on_truecolor` and `OwoColorize::truecolor` of `owo_colors`
/// on a lower half block, formatted: the block between the escape sequences
/// that set the foreground and the background to the given colours and those
/// that reset the two.
#[verifier::external_body]
pub(crate) fn paint_half_block(bg: RGB, fg: RGB) -> (cell: String)
    ensures
        cell@ == half_block(bg, fg),
{
    "▄".on_truecolor(bg.r, bg.g, bg.b).truecolor(fg.r, fg.g, fg.b).to_string()
}

/// The rows of the truecolor block. A block has at most 32767 rows, so that
/// the number of its cells fits the terminal's coordinates.
pub fn truecolor_block(height: u16) -> (rows: Vec<String>)
    requires
        height <= 0x7FFF,
    ensures
        rows@.len() == height,
        forall|k: int|
            0 <= k < height ==> (#[trigger] rows@[k])@ == truecolor_row(
                height as nat,
                k as nat,
                2 * height as nat,
            ),
{
    let side: u16 = height * 2;
    let mut rows: Vec<String> = Vec::new();
    let mut row: u16 = 0;
    while row < height
        invariant
            row <= height <= 0x7FFF,
            side == 2 * height,
            rows@.len() == row,
            forall|k: int|
                0 <= k < row ==> (#[trigger] rows@[k])@ == truecolor_row(
                    height as nat,
                    k as nat,
                    2 * height as nat,
                ),
        decreases height - row,
    {
        let y: u16 = row * 2;
        let mut line = String::new();
        let mut x: u16 = 0;
        while x < side
            invariant
                x <= side == 2 * height,
                row < height <= 0x7FFF,
                y == 2 * row,
                line@ == truecolor_row(height as nat, row as nat, x as nat),
            decreases side - x,
        {
            proof {
                lemma_ramp_range(x as nat, side as nat);
                lemma_ramp_range(y as nat, side as nat);
                lemma_ramp_range((y + 1) as nat, side as nat);
            }
            let bg = calc_truecolor(side, side, x, y);
            let fg = calc_truecolor(side, side, x, y + 1);
            let cell = paint_half_block(bg, fg);
            line.append(cell.as_str());
            x = x + 1;
        }
        rows.push(line);
        row = row + 1;
    }
    rows
}

/// The line that names the user and the machine, each in bright magenta.
pub open spec fn name_text(user: Seq<char>, host: Seq<char>) -> Seq<char> {
    in_magenta(user) + "@"@ + in_magenta(host)
}

/// Writes the name line.
pub fn name_line(user: &str, host: &str) -> (line: String)
    ensures
        line@ == name_text(user@, host@),
{
    let mut line = bright_magenta(user);
    line.append("@");
    line.append(bright_magenta(host).as_str());
    line
}

/// The rule below a name line of `name_len` columns: as wide as the name,
/// with a short stroke at either end.
pub open spec fn spacer_text(name_len: nat) -> Seq<char> {
    "╶"@ + Seq::new((name_len - 2) as nat, |i: int| '─') + "╴"@
}

/// Writes the rule below the name line. The name has at least two columns.
pub fn spacer(name_len: usize) -> (line: String)
    requires
        name_len >= 2,
    ensures
        line@ == spacer_text(name_len as nat),
{
    let mut line = String::from_str("╶");
    let mut i: usize = 0;
    let ghost bar = Seq::new((name_len - 2) as nat, |i: int| '─');
    assert(line@ =~= "╶"@ + bar.take(0));
    while i < name_len - 2
        invariant
            i <= name_len - 2,
            bar == Seq::new((name_len - 2) as nat, |i: int| '─'),
            line@ == "╶"@ + bar.take(i as int),
        decreases name_len - 2 - i,
    {
        proof {
            reveal_strlit("─");
        }
        line.append("─");
        i = i + 1;
        assert(line@ =~= "╶"@ + bar.take(i as int));
    }
    assert(bar.take(i as int) =~= bar);
    line.append("╴");
    line
}

/// The text of the system line: distribution, architecture and, in
/// brackets, the kernel.
pub open spec fn os_text(distribution: Seq<char>, arch: Seq<char>, kernel: Seq<char>) -> Seq<
    char,
> {
    distribution + " "@ + arch + " ("@ + kernel + ")"@
}

/// Writes the text of the system line.
pub fn os_line(distribution: &str, arch: &str, kernel: &str) -> (line: String)
    ensures
        line@ == os_text(distribution@, arch@, kernel@),
{
    let mut line = String::from_str(distribution);
    line.append(" ");
    line.append(arch);
    line.append(" (");
    line.append(kernel);
    line.append(")");
    line
}

/// A line as a value of specifications.
pub struct LineView {
    pub label: Option<Seq<char>>,
    pub text: Seq<char>,
    pub pad: nat,
}

impl View for TermLine {
    type V = LineView;

    open spec fn view(&self) -> LineView {
        LineView {
            label: match self.label {
                Some(l) => Some(l@),
                None => None,
            },
            text: self.text@,
            pad: self.newline_left_pad as nat,
        }
    }
}

/// The views of a list of lines.
pub open spec fn line_views(lines: Seq<TermLine>) -> Seq<LineView> {
    Seq::new(lines.len(), |i: int| lines[i]@)
}

/// The heading of a section whose text has `count` lines: the name for
/// several where there is one and the text has more than one line.
pub open spec fn heading(singular: Seq<char>, plural: Option<Seq<char>>, count: nat) -> Seq<
    char,
> {
    match plural {
        Some(p) => if count > 1 {
            p
        } else {
            singular
        },
        None => singular,
    }
}

/// A section of the report: a line that holds only the heading, as a label,
/// and the lines of the text below it, each set in by one column.
pub open spec fn section(singular: Seq<char>, plural: Option<Seq<char>>, text: Seq<char>) -> Seq<
    LineView,
> {
    let body = split_lines(text);
    seq![
        LineView {
            label: Some(heading(singular, plural, body.len())),
            text: Seq::empty(),
            pad: 0,
        },
    ] + Seq::new(body.len(), |i: int| LineView { label: None, text: body[i], pad: 1 })
}

/// Appends a section to the lines of the report.
pub fn push_section(lines: &mut Vec<TermLine>, singular: &str, plural: Option<&str>, text: &str)
    ensures
        line_views(final(lines)@) == line_views(old(lines)@) + section(
            singular@,
            match plural {
                Some(p) => Some(p@),
                None => None,
            },
            text@,
        ),
{
    let ghost before = line_views(lines@);
    let ghost want = section(
        singular@,
        match plural {
            Some(p) => Some(p@),
            None => None,
        },
        text@,
    );
    let body = lines_of(text);
    let ghost parts = split_lines(text@);
    let label = match plural {
        Some(p) => if body.len() > 1 {
            String::from_str(p)
        } else {
            String::from_str(singular)
        },
        None => String::from_str(singular),
    };
    lines.push(TermLine { label: Some(label), text: String::new(), newline_left_pad: 0 });
    assert(line_views(lines@) =~= before + want.take(1));
    let mut i: usize = 0;
    while i < body.len()
        invariant
            i <= body@.len(),
            parts == Seq::new(body@.len(), |k: int| body@[k]@),
            want.len() == 1 + parts.len(),
            forall|k: int|
                0 <= k < parts.len() ==> #[trigger] want[1 + k] == (LineView {
                    label: None,
                    text: parts[k],
                    pad: 1,
                }),
            line_views(lines@) == before + want.take(1 + i),
        decreases body@.len() - i,
    {
        let ghost so_far = line_views(lines@);
        lines.push(TermLine { label: None, text: body[i].clone(), newline_left_pad: 1 });
        proof {
            assert(parts[i as int] == body@[i as int]@);
            assert(want[1 + i] == lines@[lines@.len() - 1]@);
            assert(line_views(lines@) =~= so_far.push(want[1 + i]));
            assert(want.take(1 + i + 1) =~= want.take(1 + i).push(want[1 + i]));
        }
        i = i + 1;
    }
    assert(want.take(1 + i) =~= want);
}

/// The number that the lower 32 bits of `n` spell as a signed number.
pub open spec fn as_signed_32(n: nat) -> int {
    let low = n % 0x1_0000_0000;
    if low < 0x8000_0000 {
        low as int
    } else {
        low - 0x1_0000_0000
    }
}

/// The rows below the text when the image ends: the image's height less
/// the number of lines and a margin, in 32-bit signed arithmetic.
pub open spec fn rows_below(im_h: nat, printed: nat, margin: nat) -> int {
    as_signed_32(im_h) - as_signed_32(printed) - margin
}

/// Whether `rows_below` can be computed in 32 bits.
pub open spec fn rows_fit(im_h: nat, printed: nat, margin: nat) -> bool {
    &&& i32::MIN <= as_signed_32(im_h) - as_signed_32(printed) <= i32::MAX
    &&& i32::MIN <= rows_below(im_h, printed, margin)
}

/// Rows between the text and the truecolor block.
pub const BLOCK_MARGIN: u8 = 5;

/// Rows between the text and the colour blocks where there is no truecolor
/// block.
pub const FILLER_MARGIN: u8 = 4;

/// The height of the truecolor block in rows: what the image leaves below
/// the text and the margin, but at least half the width of the colour
/// blocks, rounded up; cut to 16 bits as the terminal's coordinates are.
pub open spec fn block_rows(im_h: nat, printed: nat, colorblockwidth: nat) -> nat {
    let below = if rows_below(im_h, printed, BLOCK_MARGIN as nat) > 0 {
        rows_below(im_h, printed, BLOCK_MARGIN as nat) as nat
    } else {
        0
    };
    let least = (colorblockwidth + 1) / 2;
    (if below >= least {
        below
    } else {
        least
    }) % 0x1_0000
}

/// The blank rows that bring the cursor below the image where there is no
/// truecolor block: what the image leaves below the text and the margin, or
/// none.
pub open spec fn blank_rows(im_h: nat, printed: nat) -> nat {
    if rows_below(im_h, printed, FILLER_MARGIN as nat) > 0 {
        rows_below(im_h, printed, FILLER_MARGIN as nat) as nat
    } else {
        0
    }
}

/// Computes `as_signed_32`.
fn signed_32(n: u64) -> (v: i64)
    ensures
        v == as_signed_32(n as nat),
        -0x8000_0000 <= v < 0x8000_0000,
{
    let low: u64 = n % 0x1_0000_0000;
    if low < 0x8000_0000 {
        low as i64
    } else {
        low as i64 - 0x1_0000_0000
    }
}

/// Computes `rows_fit`.
fn margin_fits(im_h: u32, printed: usize, margin: u8) -> (fit: bool)
    ensures
        fit == rows_fit(im_h as nat, printed as nat, margin as nat),
{
    let difference: i64 = signed_32(im_h as u64) - signed_32(printed as u64);
    difference >= -0x8000_0000 && difference <= 0x7FFF_FFFF && difference - margin as i64
        >= -0x8000_0000
}

/// Computes `rows_below`, or 0 where that is negative.
fn rows_left(im_h: u32, printed: usize, margin: u8) -> (rows: u32)
    requires
        rows_fit(im_h as nat, printed as nat, margin as nat),
    ensures
        rows == (if rows_below(im_h as nat, printed as nat, margin as nat) > 0 {
            rows_below(im_h as nat, printed as nat, margin as nat)
        } else {
            0
        }),
{
    let difference: i64 = signed_32(im_h as u64) - signed_32(printed as u64) - margin as i64;
    if difference > 0 {
        difference as u32
    } else {
        0
    }
}

/// Whether the height of the truecolor block can be computed: whether the
/// difference of image height and number of lines fits 32 bits.
pub fn block_rows_fit(im_h: u32, printed: usize) -> (fit: bool)
    ensures
        fit == rows_fit(im_h as nat, printed as nat, BLOCK_MARGIN as nat),
{
    margin_fits(im_h, printed, BLOCK_MARGIN)
}

/// Computes the height of the truecolor block.
pub fn truecolor_height(im_h: u32, printed: usize, colorblockwidth: u32) -> (rows: u16)
    requires
        rows_fit(im_h as nat, printed as nat, BLOCK_MARGIN as nat),
    ensures
        rows == block_rows(im_h as nat, printed as nat, colorblockwidth as nat),
{
    let below: u32 = rows_left(im_h, printed, BLOCK_MARGIN);
    let least: u32 = colorblockwidth / 2 + colorblockwidth % 2;
    let rows: u32 = if below >= least {
        below
    } else {
        least
    };
    (rows % 0x1_0000) as u16
}

/// Whether the number of blank rows can be computed: whether the difference
/// of image height and number of lines fits 32 bits.
pub fn filler_rows_fit(im_h: u32, printed: usize) -> (fit: bool)
    ensures
        fit == rows_fit(im_h as nat, printed as nat, FILLER_MARGIN as nat),
{
    margin_fits(im_h, printed, FILLER_MARGIN)
}

/// Computes the number of blank rows where there is no truecolor block.
pub fn filler_rows(im_h: u32, printed: usize) -> (rows: u32)
    requires
        rows_fit(im_h as nat, printed as nat, FILLER_MARGIN as nat),
    ensures
        rows == blank_rows(im_h as nat, printed as nat),
{
    rows_left(im_h, printed, FILLER_MARGIN)
}

} // verus!
