//! Console formatting helpers: banners and tables drawn with box-drawing
//! characters.
//!
//! Widths are measured as `str::len` measures them: in bytes of UTF-8,
//! which equals the number of characters for ASCII text.
use vstd::prelude::*;
use vstd::utf8::*;

verus! {

/// Default width of a banner, border characters included.
pub const DEFAULT_BANNER_WIDTH: usize = 64;

/// Minimum width of a banner.
pub const MIN_BANNER_WIDTH: usize = 20;

/// Length of a text in bytes of UTF-8, which is what `str::len` returns.
pub open spec fn byte_len(s: Seq<char>) -> nat {
    encode_utf8(s).len()
}

/// `n` copies of the character `c`.
pub open spec fn repeat_char(c: char, n: nat) -> Seq<char> {
    Seq::new(n, |_i: int| c)
}

/// Subtraction that stops at zero, as `usize::saturating_sub`.
pub open spec fn sat_sub(a: nat, b: nat) -> nat {
    if a >= b {
        (a - b) as nat
    } else {
        0
    }
}

/// The larger of two numbers.
pub open spec fn max_nat(a: nat, b: nat) -> nat {
    if a >= b {
        a
    } else {
        b
    }
}

/// `text` centred in a field of `width` bytes: the spare room is split in
/// two, the extra space (if any) going to the right.
pub open spec fn centered(text: Seq<char>, width: nat) -> Seq<char> {
    let pad = sat_sub(width, byte_len(text));
    repeat_char(' ', pad / 2) + text + repeat_char(' ', (pad - pad / 2) as nat)
}

/// The views of a slice of string slices.
pub open spec fn strs_view(s: Seq<&str>) -> Seq<Seq<char>> {
    s.map_values(|x: &str| x@)
}

/// Rows of text, each followed by a newline.
pub open spec fn rows_text(rows: Seq<Seq<char>>) -> Seq<char>
    decreases rows.len(),
{
    if rows.len() == 0 {
        seq![]
    } else {
        rows_text(rows.drop_last()) + rows.last() + seq!['\n']
    }
}

/// The text of a concatenation of rows is the concatenation of their texts.
pub proof fn lemma_rows_text_concat(a: Seq<Seq<char>>, b: Seq<Seq<char>>)
    ensures
        rows_text(a + b) == rows_text(a) + rows_text(b),
    decreases b.len(),
{
    if b.len() == 0 {
        assert(a + b =~= a);
    } else {
        assert((a + b).drop_last() =~= a + b.drop_last());
        lemma_rows_text_concat(a, b.drop_last());
    }
}

/// The text of a single row is the row and a newline.
pub proof fn lemma_rows_text_single(r: Seq<char>)
    ensures
        rows_text(seq![r]) == r + seq!['\n'],
{
    assert(seq![r].drop_last() =~= Seq::<Seq<char>>::empty());
    assert(rows_text(Seq::<Seq<char>>::empty()) == Seq::<char>::empty());
    assert(rows_text(seq![r]) =~= r + seq!['\n']);
}

// ---------------------------------------------------------------------------
// Banner
// ---------------------------------------------------------------------------

/// The widest content line, plus four bytes of indent and padding; zero
/// without lines.
pub open spec fn max_line_width(lines: Seq<Seq<char>>) -> nat
    decreases lines.len(),
{
    if lines.len() == 0 {
        0
    } else {
        max_nat(max_line_width(lines.drop_last()), byte_len(lines.last()) + 4)
    }
}

/// Width of a banner between its two border characters: the largest of
/// the default width, the title plus four and the widest content line,
/// less the two borders.
pub open spec fn banner_inner_width(title: Seq<char>, lines: Seq<Seq<char>>) -> nat {
    let outer = max_nat(
        max_nat(
            max_nat(DEFAULT_BANNER_WIDTH as nat, byte_len(title) + 4),
            max_line_width(lines),
        ),
        MIN_BANNER_WIDTH as nat,
    );
    (outer - 2) as nat
}

/// A content line of a banner: two spaces of indent, the line, then spaces
/// up to the inner width.
pub open spec fn banner_content_row(line: Seq<char>, width: nat) -> Seq<char> {
    seq!['║', ' ', ' '] + line + repeat_char(' ', sat_sub(width, byte_len(line) + 2)) + seq!['║']
}

/// The rows of a banner, without their newlines: the top border, the
/// centred title, then (when there are content lines) a separator and one
/// row per line, and the bottom border.
pub open spec fn banner_rows(title: Seq<char>, lines: Seq<Seq<char>>) -> Seq<Seq<char>> {
    let w = banner_inner_width(title, lines);
    let head = seq![
        seq!['╔'] + repeat_char('═', w) + seq!['╗'],
        seq!['║'] + centered(title, w) + seq!['║'],
    ];
    let body = if lines.len() == 0 {
        Seq::<Seq<char>>::empty()
    } else {
        seq![seq!['╠'] + repeat_char('═', w) + seq!['╣']] + lines.map_values(
            |l: Seq<char>| banner_content_row(l, w),
        )
    };
    head + body + seq![seq!['╚'] + repeat_char('═', w) + seq!['╝']]
}

/// The whole banner: an empty line, then every row followed by a newline.
pub open spec fn banner_text(title: Seq<char>, lines: Seq<Seq<char>>) -> Seq<char> {
    seq!['\n'] + rows_text(banner_rows(title, lines))
}


/// Every content line fits: its width plus four is at most the widest.
pub proof fn lemma_max_line_width_bound(lines: Seq<Seq<char>>, i: int)
    requires
        0 <= i < lines.len(),
    ensures
        byte_len(lines[i]) + 4 <= max_line_width(lines),
    decreases lines.len(),
{
    if i < lines.len() - 1 {
        lemma_max_line_width_bound(lines.drop_last(), i);
    }
}

/// A banner is at least 64 characters wide, and wide enough for its title
/// plus four and for every content line plus four (counted in bytes).
pub proof fn lemma_banner_width_fits(title: Seq<char>, lines: Seq<Seq<char>>)
    ensures
        banner_inner_width(title, lines) + 2 >= DEFAULT_BANNER_WIDTH,
        banner_inner_width(title, lines) + 2 >= byte_len(title) + 4,
        forall|i: int|
            0 <= i < lines.len() ==> banner_inner_width(title, lines) + 2 >= byte_len(
                #[trigger] lines[i],
            ) + 4,
{
    assert forall|i: int| 0 <= i < lines.len() implies banner_inner_width(title, lines) + 2
        >= byte_len(#[trigger] lines[i]) + 4 by {
        lemma_max_line_width_bound(lines, i);
    }
}

/// For ASCII text a banner is a rectangle: every row has the same number of
/// characters, its inner width plus the two borders.
pub proof fn lemma_banner_rows_aligned(title: Seq<char>, lines: Seq<Seq<char>>)
    requires
        is_ascii_chars(title),
        forall|i: int| 0 <= i < lines.len() ==> is_ascii_chars(#[trigger] lines[i]),
    ensures
        forall|k: int|
            0 <= k < banner_rows(title, lines).len() ==> (#[trigger] banner_rows(title, lines)[k]).len()
                == banner_inner_width(title, lines) + 2,
{
    let w = banner_inner_width(title, lines);
    let rows = banner_rows(title, lines);
    is_ascii_chars_encode_utf8(title);
    assert(byte_len(title) + 4 <= w + 2);
    assert forall|k: int| 0 <= k < rows.len() implies (#[trigger] rows[k]).len() == w + 2 by {
        if lines.len() > 0 && 3 <= k < rows.len() - 1 {
            let l = lines[k - 3];
            is_ascii_chars_encode_utf8(l);
            lemma_max_line_width_bound(lines, k - 3);
            assert(rows[k] == banner_content_row(l, w));
        }
    }
}

/// Appends `n` copies of the single character of `piece` to `s`.
fn append_repeated(s: &mut String, piece: &str, n: usize)
    requires
        piece@.len() == 1,
    ensures
        final(s)@ == old(s)@ + repeat_char(piece@[0], n as nat),
{
    let ghost start = s@;
    let mut i: usize = 0;
    while i < n
        invariant
            i <= n,
            piece@.len() == 1,
            s@ == start + repeat_char(piece@[0], i as nat),
        decreases n - i,
    {
        s.append(piece);
        assert(start + repeat_char(piece@[0], (i + 1) as nat) =~= start + repeat_char(
            piece@[0],
            i as nat,
        ) + piece@);
        i = i + 1;
    }
}

/// Appends a horizontal banner border, `left`, `width` copies of `═`,
/// `right`, and a newline.
fn append_banner_border(s: &mut String, left: &str, width: usize, right: &str)
    requires
        left@.len() == 1,
        right@.len() == 1,
    ensures
        final(s)@ == old(s)@ + (seq![left@[0]] + repeat_char('═', width as nat) + seq![right@[0]])
            + seq!['\n'],
{
    proof {
        reveal_strlit("═");
        reveal_strlit("\n");
    }
    let ghost start = s@;
    s.append(left);
    append_repeated(s, "═", width);
    s.append(right);
    s.append("\n");
    assert(s@ =~= start + (seq![left@[0]] + repeat_char('═', width as nat) + seq![right@[0]])
        + seq!['\n']);
}

/// Appends the title row of a banner of inner width `width`, and a newline.
fn append_banner_title(s: &mut String, title: &str, width: usize)
    requires
        byte_len(title@) <= usize::MAX,
    ensures
        final(s)@ == old(s)@ + (seq!['║'] + centered(title@, width as nat) + seq!['║']) + seq![
            '\n',
        ],
{
    proof {
        reveal_strlit("║");
        reveal_strlit(" ");
        reveal_strlit("\n");
    }
    let ghost start = s@;
    let title_padding = if width >= title.len() {
        width - title.len()
    } else {
        0
    };
    let left_pad = title_padding / 2;
    let right_pad = title_padding - left_pad;
    s.append("║");
    append_repeated(s, " ", left_pad);
    s.append(title);
    append_repeated(s, " ", right_pad);
    s.append("║");
    s.append("\n");
    assert(s@ =~= start + (seq!['║'] + centered(title@, width as nat) + seq!['║']) + seq!['\n']);
}

/// Appends one content row of a banner of inner width `width`, and a
/// newline.
fn append_banner_line(s: &mut String, line: &str, width: usize)
    requires
        byte_len(line@) + 2 <= usize::MAX,
    ensures
        final(s)@ == old(s)@ + banner_content_row(line@, width as nat) + seq!['\n'],
{
    proof {
        reveal_strlit("║");
        reveal_strlit(" ");
        reveal_strlit("  ");
        reveal_strlit("\n");
    }
    let ghost start = s@;
    let content_len = line.len() + 2;
    let padding = if width >= content_len {
        width - content_len
    } else {
        0
    };
    s.append("║");
    s.append("  ");
    s.append(line);
    append_repeated(s, " ", padding);
    s.append("║");
    s.append("\n");
    assert(s@ =~= start + banner_content_row(line@, width as nat) + seq!['\n']);
}

/// The inner width of the banner, computed as [`banner_inner_width`].
fn banner_width(title: &str, content_lines: &[&str]) -> (w: usize)
    requires
        byte_len(title@) + 4 <= usize::MAX,
        forall|i: int| 0 <= i < content_lines@.len() ==> byte_len(#[trigger] content_lines@[i]@) + 4
            <= usize::MAX,
    ensures
        w == banner_inner_width(title@, strs_view(content_lines@)),
{
    let ghost lines = strs_view(content_lines@);
    let title_width = title.len() + 4;
    let mut content_max_width: usize = 0;
    let mut k: usize = 0;
    while k < content_lines.len()
        invariant
            k <= content_lines@.len(),
            lines == strs_view(content_lines@),
            forall|i: int| 0 <= i < content_lines@.len() ==> byte_len(#[trigger] content_lines@[i]@)
                + 4 <= usize::MAX,
            content_max_width == max_line_width(lines.take(k as int)),
        decreases content_lines@.len() - k,
    {
        let w = content_lines[k].len() + 4;
        assert(lines.take(k + 1).drop_last() =~= lines.take(k as int));
        if w > content_max_width {
            content_max_width = w;
        }
        k = k + 1;
    }
    assert(lines.take(content_lines@.len() as int) =~= lines);
    let mut outer = DEFAULT_BANNER_WIDTH;
    if title_width > outer {
        outer = title_width;
    }
    if content_max_width > outer {
        outer = content_max_width;
    }
    if MIN_BANNER_WIDTH > outer {
        outer = MIN_BANNER_WIDTH;
    }
    outer - 2
}

/// Appends one content row per line, each followed by a newline.
fn append_banner_lines(s: &mut String, content_lines: &[&str], width: usize)
    requires
        forall|i: int| 0 <= i < content_lines@.len() ==> byte_len(#[trigger] content_lines@[i]@) + 4
            <= usize::MAX,
    ensures
        final(s)@ == old(s)@ + rows_text(
            strs_view(content_lines@).map_values(|l: Seq<char>| banner_content_row(l, width as nat)),
        ),
{
    let ghost start = s@;
    let ghost content = strs_view(content_lines@).map_values(
        |l: Seq<char>| banner_content_row(l, width as nat),
    );
    let mut i: usize = 0;
    while i < content_lines.len()
        invariant
            i <= content_lines@.len(),
            content == strs_view(content_lines@).map_values(
                |l: Seq<char>| banner_content_row(l, width as nat),
            ),
            forall|j: int| 0 <= j < content_lines@.len() ==> byte_len(#[trigger] content_lines@[j]@)
                + 4 <= usize::MAX,
            s@ == start + rows_text(content.take(i as int)),
        decreases content_lines@.len() - i,
    {
        append_banner_line(s, content_lines[i], width);
        assert(content.take(i + 1).drop_last() =~= content.take(i as int));
        assert(s@ =~= start + rows_text(content.take(i + 1)));
        i = i + 1;
    }
    assert(content.take(content_lines@.len() as int) =~= content);
}

/// The banner's text, row by row: the top border, the title row, then
/// (with content lines) the separator and the content rows, and the
/// bottom border, each with its newline.
proof fn lemma_banner_text_parts(title: Seq<char>, lines: Seq<Seq<char>>)
    ensures
        ({
            let w = banner_inner_width(title, lines);
            let content = lines.map_values(|l: Seq<char>| banner_content_row(l, w));
            banner_text(title, lines) == seq!['\n'] + (seq!['╔'] + repeat_char('═', w) + seq!['╗'])
                + seq!['\n'] + (seq!['║'] + centered(title, w) + seq!['║']) + seq!['\n'] + (if lines.len()
                == 0 {
                Seq::<char>::empty()
            } else {
                (seq!['╠'] + repeat_char('═', w) + seq!['╣']) + seq!['\n'] + rows_text(content)
            }) + (seq!['╚'] + repeat_char('═', w) + seq!['╝']) + seq!['\n']
        }),
{
    let w = banner_inner_width(title, lines);
    let top = seq!['╔'] + repeat_char('═', w) + seq!['╗'];
    let title_row = seq!['║'] + centered(title, w) + seq!['║'];
    let sep = seq!['╠'] + repeat_char('═', w) + seq!['╣'];
    let bottom = seq!['╚'] + repeat_char('═', w) + seq!['╝'];
    let content = lines.map_values(|l: Seq<char>| banner_content_row(l, w));
    let head = seq![top, title_row];
    let body = if lines.len() == 0 {
        Seq::<Seq<char>>::empty()
    } else {
        seq![sep] + content
    };
    assert(banner_rows(title, lines) =~= head + body + seq![bottom]);
    assert(head =~= seq![top] + seq![title_row]);
    lemma_rows_text_concat(seq![top], seq![title_row]);
    lemma_rows_text_single(top);
    lemma_rows_text_single(title_row);
    lemma_rows_text_single(bottom);
    lemma_rows_text_concat(head + body, seq![bottom]);
    lemma_rows_text_concat(head, body);
    if lines.len() > 0 {
        lemma_rows_text_single(sep);
        lemma_rows_text_concat(seq![sep], content);
    } else {
        assert(rows_text(body) =~= Seq::<char>::empty());
    }
    assert(banner_text(title, lines) =~= seq!['\n'] + top + seq!['\n'] + title_row + seq!['\n'] + (
    if lines.len() == 0 {
        Seq::<char>::empty()
    } else {
        sep + seq!['\n'] + rows_text(content)
    }) + bottom + seq!['\n']);
}

/// Creates a banner with a centred title and optional content lines,
/// drawn with box-drawing characters. The width is at least 64 and grows
/// to fit the title and the longest line.
pub fn create_banner(title: &str, content_lines: &[&str]) -> (r: String)
    requires
        byte_len(title@) + 4 <= usize::MAX,
        forall|i: int| 0 <= i < content_lines@.len() ==> byte_len(#[trigger] content_lines@[i]@) + 4
            <= usize::MAX,
    ensures
        r@ == banner_text(title@, strs_view(content_lines@)),
{
    proof {
        reveal_strlit("\n");
        reveal_strlit("╔");
        reveal_strlit("╗");
        reveal_strlit("╠");
        reveal_strlit("╣");
        reveal_strlit("╚");
        reveal_strlit("╝");
        lemma_banner_text_parts(title@, strs_view(content_lines@));
    }
    let inner_width = banner_width(title, content_lines);
    let mut result = String::new();
    result.append("\n");
    append_banner_border(&mut result, "╔", inner_width, "╗");
    append_banner_title(&mut result, title, inner_width);
    let ghost head = result@;
    if content_lines.len() > 0 {
        append_banner_border(&mut result, "╠", inner_width, "╣");
        append_banner_lines(&mut result, content_lines, inner_width);
    } else {
        assert(head + Seq::<char>::empty() =~= head);
    }
    append_banner_border(&mut result, "╚", inner_width, "╝");
    assert(result@ =~= banner_text(title@, strs_view(content_lines@)));
    result
}

// ---------------------------------------------------------------------------
// Table
// ---------------------------------------------------------------------------

/// The first `k` parts, each followed by `sep` except the last of all.
pub open spec fn joined_upto(parts: Seq<Seq<char>>, sep: char, k: nat) -> Seq<char>
    decreases k,
{
    if k == 0 {
        seq![]
    } else {
        joined_upto(parts, sep, (k - 1) as nat) + parts[k - 1] + (if k < parts.len() {
            seq![sep]
        } else {
            seq![]
        })
    }
}

/// All parts, separated by `sep`.
pub open spec fn joined(parts: Seq<Seq<char>>, sep: char) -> Seq<char> {
    joined_upto(parts, sep, parts.len())
}

/// A horizontal rule across columns of the given widths: `left`, one run
/// of `─` per column separated by `mid`, then `right`.
pub open spec fn border_row(widths: Seq<nat>, left: char, mid: char, right: char) -> Seq<char> {
    seq![left] + joined(widths.map_values(|w: nat| repeat_char('─', w)), mid) + seq![right]
}

/// The `i`-th cell, or the empty text where the row has fewer cells.
pub open spec fn cell_or_empty(cells: Seq<Seq<char>>, i: int) -> Seq<char> {
    if 0 <= i < cells.len() {
        cells[i]
    } else {
        seq![]
    }
}

/// A row of cells, each centred in its column, between vertical bars.
pub open spec fn cells_row(cells: Seq<Seq<char>>, widths: Seq<nat>) -> Seq<char> {
    seq!['│'] + joined(
        Seq::new(widths.len(), |i: int| centered(cell_or_empty(cells, i), widths[i])),
        '│',
    ) + seq!['│']
}


/// Joining parts whose lengths agree pairwise gives texts of equal length,
/// whatever the (single-character) separators.
pub proof fn lemma_joined_same_len(p: Seq<Seq<char>>, q: Seq<Seq<char>>, a: char, b: char, k: nat)
    requires
        p.len() == q.len(),
        k <= p.len(),
        forall|i: int| 0 <= i < p.len() ==> (#[trigger] p[i]).len() == q[i].len(),
    ensures
        joined_upto(p, a, k).len() == joined_upto(q, b, k).len(),
    decreases k,
{
    if k > 0 {
        lemma_joined_same_len(p, q, a, b, (k - 1) as nat);
        assert(p[k - 1].len() == q[k - 1].len());
    }
}

/// For ASCII cells that fit their columns, a data row is exactly as wide
/// as the table's borders: the table's edges line up.
pub proof fn lemma_row_as_wide_as_border(
    cells: Seq<Seq<char>>,
    widths: Seq<nat>,
    left: char,
    mid: char,
    right: char,
)
    requires
        forall|i: int|
            0 <= i < cells.len() && i < widths.len() ==> is_ascii_chars(#[trigger] cells[i])
                && cells[i].len() <= widths[i],
    ensures
        cells_row(cells, widths).len() == border_row(widths, left, mid, right).len(),
{
    let p = Seq::new(widths.len(), |i: int| centered(cell_or_empty(cells, i), widths[i]));
    let q = widths.map_values(|w: nat| repeat_char('─', w));
    assert forall|i: int| 0 <= i < p.len() implies (#[trigger] p[i]).len() == q[i].len() by {
        let c = cell_or_empty(cells, i);
        if 0 <= i < cells.len() {
            is_ascii_chars_encode_utf8(c);
        } else {
            assert(encode_utf8(c) =~= Seq::<u8>::empty());
        }
    }
    lemma_joined_same_len(p, q, '│', mid, widths.len());
}

/// The width a column gets: the requested one, or the header's width plus
/// two where zero was requested.
pub open spec fn effective_width(name: Seq<char>, width: nat) -> nat {
    if width == 0 {
        byte_len(name) + 2
    } else {
        width
    }
}

/// `n` empty cells.
pub open spec fn empty_cells(n: nat) -> Seq<Seq<char>> {
    Seq::new(n, |_i: int| Seq::<char>::empty())
}

/// The abstract state of a [`Table`].
#[verifier::ext_equal]
pub struct TableView {
    /// Header of each column.
    pub names: Seq<Seq<char>>,
    /// Width of each column.
    pub widths: Seq<nat>,
    /// Cells of the row being filled in, one per column.
    pub cells: Seq<Seq<char>>,
    /// Number of rows completed so far.
    pub current_row: nat,
    /// Whether the header has been emitted.
    pub header_printed: bool,
    /// Whether a row is being filled in.
    pub row_started: bool,
    /// Whether the footer has been emitted.
    pub finished: bool,
}

impl TableView {
    /// Top border, header row and the separator below it.
    pub open spec fn header_text(self) -> Seq<char> {
        border_row(self.widths, '┌', '┬', '┐') + seq!['\n'] + cells_row(self.names, self.widths)
            + seq!['\n'] + border_row(self.widths, '├', '┼', '┤') + seq!['\n']
    }

    /// The rule between two data rows.
    pub open spec fn separator_text(self) -> Seq<char> {
        border_row(self.widths, '├', '┼', '┤') + seq!['\n']
    }

    /// The bottom border.
    pub open spec fn footer_text(self) -> Seq<char> {
        border_row(self.widths, '└', '┴', '┘') + seq!['\n']
    }

    /// A data row with a trailing newline.
    pub open spec fn row_text(self, cells: Seq<Seq<char>>) -> Seq<char> {
        cells_row(cells, self.widths) + seq!['\n']
    }

    /// What adding the complete row `cells` produces: the header before the
    /// first row or a separator before a later one, then the row.
    pub open spec fn add_row_text(self, cells: Seq<Seq<char>>) -> Seq<char> {
        (if !self.header_printed {
            self.header_text()
        } else {
            self.separator_text()
        }) + self.row_text(cells)
    }

    /// The state after adding a complete row.
    pub open spec fn add_row_view(self) -> TableView {
        TableView { header_printed: true, current_row: self.current_row + 1, ..self }
    }

    /// Text and state after adding `rows` one after another.
    pub open spec fn added_rows(self, rows: Seq<Seq<Seq<char>>>) -> (Seq<char>, TableView)
        decreases rows.len(),
    {
        if rows.len() == 0 {
            (seq![], self)
        } else {
            let (out, t) = self.added_rows(rows.drop_last());
            (out + t.add_row_text(rows.last()), t.add_row_view())
        }
    }

    /// The data rows of a table separated by rules, with no header.
    pub open spec fn rows_body(self, rows: Seq<Seq<Seq<char>>>) -> Seq<char>
        decreases rows.len(),
    {
        if rows.len() == 0 {
            seq![]
        } else if rows.len() == 1 {
            self.row_text(rows[0])
        } else {
            self.rows_body(rows.drop_last()) + self.separator_text() + self.row_text(rows.last())
        }
    }

    /// What precedes a new row: the header before the first row, a
    /// separator after a completed row, nothing otherwise.
    pub open spec fn before_row_text(self) -> Seq<char> {
        if !self.header_printed {
            self.header_text()
        } else if self.current_row > 0 {
            self.separator_text()
        } else {
            seq![]
        }
    }
}

/// A table that produces its text row by row: the header before the first
/// row, separators between rows and a footer at the end. Each method
/// returns the text to write out.
pub struct Table {
    /// Column definitions: (header name, width).
    columns: Vec<(String, usize)>,
    /// Cells of the row being filled in.
    cell_buffer: Vec<String>,
    current_row: usize,
    header_printed: bool,
    row_started: bool,
    finished: bool,
}

impl View for Table {
    type V = TableView;

    closed spec fn view(&self) -> TableView {
        TableView {
            names: self.columns@.map_values(|c: (String, usize)| c.0@),
            widths: self.columns@.map_values(|c: (String, usize)| c.1 as nat),
            cells: self.cell_buffer@.map_values(|c: String| c@),
            current_row: self.current_row as nat,
            header_printed: self.header_printed,
            row_started: self.row_started,
            finished: self.finished,
        }
    }
}

impl Table {
    #[verifier::type_invariant]
    spec fn inv(&self) -> bool {
        &&& self.cell_buffer@.len() == self.columns@.len()
        &&& self.row_started ==> self.header_printed
        &&& forall|i: int|
            0 <= i < self.columns@.len() ==> byte_len(#[trigger] self.columns@[i].0@)
                <= usize::MAX
        &&& forall|i: int|
            0 <= i < self.cell_buffer@.len() ==> byte_len(#[trigger] self.cell_buffer@[i]@)
                <= usize::MAX
    }

    /// Creates a table with the given (header, width) columns; a zero width
    /// becomes the header's width plus two.
    pub fn new(columns: &[(&str, usize)]) -> (t: Table)
        requires
            forall|i: int|
                0 <= i < columns@.len() ==> byte_len((#[trigger] columns@[i]).0@) + 2 <= usize::MAX,
        ensures
            t@.names == columns@.map_values(|c: (&str, usize)| c.0@),
            t@.widths == columns@.map_values(
                |c: (&str, usize)| effective_width(c.0@, c.1 as nat),
            ),
            t@.cells == empty_cells(columns@.len()),
            t@.current_row == 0,
            !t@.header_printed,
            !t@.row_started,
            !t@.finished,
    {
        let mut cols: Vec<(String, usize)> = Vec::new();
        let mut cells: Vec<String> = Vec::new();
        let mut i: usize = 0;
        while i < columns.len()
            invariant
                i <= columns@.len(),
                cols@.len() == i,
                cells@.len() == i,
                forall|j: int|
                    0 <= j < columns@.len() ==> byte_len((#[trigger] columns@[j]).0@) + 2
                        <= usize::MAX,
                forall|j: int|
                    0 <= j < i ==> (#[trigger] cols@[j]).0@ == columns@[j].0@ && cols@[j].1
                        == effective_width(columns@[j].0@, columns@[j].1 as nat),
                forall|j: int| 0 <= j < i ==> (#[trigger] cells@[j])@ == Seq::<char>::empty(),
            decreases columns@.len() - i,
        {
            let (name, width) = columns[i];
            let effective = if width == 0 {
                name.len() + 2
            } else {
                width
            };
            cols.push((name.to_owned(), effective));
            cells.push(String::new());
            i = i + 1;
        }
        let t = Table {
            columns: cols,
            cell_buffer: cells,
            current_row: 0,
            header_printed: false,
            row_started: false,
            finished: false,
        };
        assert(t@.names =~= columns@.map_values(|c: (&str, usize)| c.0@));
        assert(t@.widths =~= columns@.map_values(
            |c: (&str, usize)| effective_width(c.0@, c.1 as nat),
        ));
        assert(t@.cells =~= empty_cells(columns@.len()));
        t
    }

    /// Appends `text` centred in a field of `width` bytes.
    fn append_centered(s: &mut String, text: &str, width: usize)
        requires
            byte_len(text@) <= usize::MAX,
        ensures
            final(s)@ == old(s)@ + centered(text@, width as nat),
    {
        proof {
            reveal_strlit(" ");
        }
        let ghost start = s@;
        let padding = if width >= text.len() {
            width - text.len()
        } else {
            0
        };
        let left_pad = padding / 2;
        let right_pad = padding - left_pad;
        append_repeated(s, " ", left_pad);
        s.append(text);
        append_repeated(s, " ", right_pad);
        assert(s@ =~= start + centered(text@, width as nat));
    }

    /// Appends a horizontal rule: `left`, one run of `─` per column
    /// separated by `mid`, then `right`.
    fn append_border(&self, s: &mut String, left: &str, mid: &str, right: &str)
        requires
            left@.len() == 1,
            mid@.len() == 1,
            right@.len() == 1,
        ensures
            final(s)@ == old(s)@ + border_row(self@.widths, left@[0], mid@[0], right@[0]),
    {
        proof {
            reveal_strlit("─");
        }
        let ghost start = s@;
        let ghost parts = self@.widths.map_values(|w: nat| repeat_char('─', w));
        s.append(left);
        let n = self.columns.len();
        let mut i: usize = 0;
        while i < n
            invariant
                i <= n,
                n == self.columns@.len(),
                parts == self@.widths.map_values(|w: nat| repeat_char('─', w)),
                parts.len() == n,
                mid@.len() == 1,
                s@ == start + left@ + joined_upto(parts, mid@[0], i as nat),
            decreases n - i,
        {
            proof {
                reveal_strlit("─");
            }
            append_repeated(s, "─", self.columns[i].1);
            assert(parts[i as int] == repeat_char('─', self.columns@[i as int].1 as nat));
            if i < n - 1 {
                s.append(mid);
            }
            assert(s@ =~= start + left@ + joined_upto(parts, mid@[0], (i + 1) as nat));
            i = i + 1;
        }
        s.append(right);
        assert(s@ =~= old(s)@ + border_row(self@.widths, left@[0], mid@[0], right@[0]));
    }

    /// Appends a row of centred cells between vertical bars; missing cells
    /// are empty.
    fn append_cells(&self, s: &mut String, cells: &[&str])
        requires
            forall|i: int| 0 <= i < cells@.len() ==> byte_len(#[trigger] cells@[i]@) <= usize::MAX,
        ensures
            final(s)@ == old(s)@ + cells_row(strs_view(cells@), self@.widths),
    {
        proof {
            reveal_strlit("│");
            reveal_strlit("");
        }
        let ghost start = s@;
        let ghost cv = strs_view(cells@);
        let ghost parts = Seq::new(
            self@.widths.len(),
            |i: int| centered(cell_or_empty(cv, i), self@.widths[i]),
        );
        s.append("│");
        let n = self.columns.len();
        let mut i: usize = 0;
        while i < n
            invariant
                i <= n,
                n == self.columns@.len(),
                cv == strs_view(cells@),
                parts == Seq::new(
                    self@.widths.len(),
                    |i: int| centered(cell_or_empty(cv, i), self@.widths[i]),
                ),
                forall|j: int|
                    0 <= j < cells@.len() ==> byte_len(#[trigger] cells@[j]@) <= usize::MAX,
                s@ == start + seq!['│'] + joined_upto(parts, '│', i as nat),
            decreases n - i,
        {
            proof {
                reveal_strlit("│");
                reveal_strlit("");
            }
            let cell: &str = if i < cells.len() {
                cells[i]
            } else {
                ""
            };
            assert(cell@ == cell_or_empty(cv, i as int));
            Self::append_centered(s, cell, self.columns[i].1);
            if i < n - 1 {
                s.append("│");
            }
            assert(s@ =~= start + seq!['│'] + joined_upto(parts, '│', (i + 1) as nat));
            i = i + 1;
        }
        s.append("│");
        assert(s@ =~= old(s)@ + cells_row(strs_view(cells@), self@.widths));
    }

    /// Appends the header names, centred in their columns, between bars.
    fn append_names(&self, s: &mut String)
        ensures
            final(s)@ == old(s)@ + cells_row(self@.names, self@.widths),
    {
        proof {
            reveal_strlit("│");
            use_type_invariant(self);
        }
        let ghost start = s@;
        let ghost names = self@.names;
        let ghost parts = Seq::new(
            self@.widths.len(),
            |i: int| centered(cell_or_empty(names, i), self@.widths[i]),
        );
        s.append("│");
        let n = self.columns.len();
        let mut i: usize = 0;
        while i < n
            invariant
                i <= n,
                n == self.columns@.len(),
                names == self@.names,
                parts == Seq::new(
                    self@.widths.len(),
                    |i: int| centered(cell_or_empty(names, i), self@.widths[i]),
                ),
                forall|j: int|
                    0 <= j < self.columns@.len() ==> byte_len(#[trigger] self.columns@[j].0@)
                        <= usize::MAX,
                s@ == start + seq!['│'] + joined_upto(parts, '│', i as nat),
            decreases n - i,
        {
            proof {
                reveal_strlit("│");
            }
            Self::append_centered(s, self.columns[i].0.as_str(), self.columns[i].1);
            if i < n - 1 {
                s.append("│");
            }
            assert(s@ =~= start + seq!['│'] + joined_upto(parts, '│', (i + 1) as nat));
            i = i + 1;
        }
        s.append("│");
        assert(s@ =~= old(s)@ + cells_row(self@.names, self@.widths));
    }

    /// Number of rows completed so far.
    pub fn current_row(&self) -> (n: usize)
        ensures
            n == self@.current_row,
    {
        self.current_row
    }

    /// A data row without its trailing newline, for in-place updates.
    pub fn format_row_no_newline(&self, cells: &[&str]) -> (r: String)
        requires
            forall|i: int| 0 <= i < cells@.len() ==> byte_len(#[trigger] cells@[i]@) <= usize::MAX,
        ensures
            r@ == cells_row(strs_view(cells@), self@.widths),
    {
        let mut result = String::new();
        self.append_cells(&mut result, cells);
        result
    }

    /// The header: top border, header row and separator.
    pub fn format_header(&self) -> (r: String)
        ensures
            r@ == self@.header_text(),
    {
        proof {
            reveal_strlit("┌");
            reveal_strlit("┬");
            reveal_strlit("┐");
            reveal_strlit("├");
            reveal_strlit("┼");
            reveal_strlit("┤");
            reveal_strlit("\n");
        }
        let mut result = String::new();
        self.append_border(&mut result, "┌", "┬", "┐");
        result.append("\n");
        self.append_names(&mut result);
        result.append("\n");
        self.append_border(&mut result, "├", "┼", "┤");
        result.append("\n");
        assert(result@ =~= self@.header_text());
        result
    }

    /// A data row with centred cells and a trailing newline.
    pub fn format_row(&self, cells: &[&str]) -> (r: String)
        requires
            forall|i: int| 0 <= i < cells@.len() ==> byte_len(#[trigger] cells@[i]@) <= usize::MAX,
        ensures
            r@ == self@.row_text(strs_view(cells@)),
    {
        proof {
            reveal_strlit("\n");
        }
        let mut result = String::new();
        self.append_cells(&mut result, cells);
        result.append("\n");
        assert(result@ =~= self@.row_text(strs_view(cells@)));
        result
    }

    /// The rule between two rows.
    pub fn format_separator(&self) -> (r: String)
        ensures
            r@ == self@.separator_text(),
    {
        proof {
            reveal_strlit("├");
            reveal_strlit("┼");
            reveal_strlit("┤");
            reveal_strlit("\n");
        }
        let mut result = String::new();
        self.append_border(&mut result, "├", "┼", "┤");
        result.append("\n");
        assert(result@ =~= self@.separator_text());
        result
    }

    /// The bottom border.
    pub fn format_footer(&self) -> (r: String)
        ensures
            r@ == self@.footer_text(),
    {
        proof {
            reveal_strlit("└");
            reveal_strlit("┴");
            reveal_strlit("┘");
            reveal_strlit("\n");
        }
        let mut result = String::new();
        self.append_border(&mut result, "└", "┴", "┘");
        result.append("\n");
        assert(result@ =~= self@.footer_text());
        result
    }

    /// Appends the cells of the row being filled in, centred in their
    /// columns, between bars.
    fn append_buffer_cells(&self, s: &mut String)
        ensures
            final(s)@ == old(s)@ + cells_row(self@.cells, self@.widths),
    {
        proof {
            reveal_strlit("│");
            use_type_invariant(self);
        }
        let ghost start = s@;
        let ghost cells = self@.cells;
        let ghost parts = Seq::new(
            self@.widths.len(),
            |i: int| centered(cell_or_empty(cells, i), self@.widths[i]),
        );
        s.append("│");
        let n = self.columns.len();
        let mut i: usize = 0;
        while i < n
            invariant
                i <= n,
                n == self.columns@.len(),
                n == self.cell_buffer@.len(),
                cells == self@.cells,
                parts == Seq::new(
                    self@.widths.len(),
                    |i: int| centered(cell_or_empty(cells, i), self@.widths[i]),
                ),
                forall|j: int|
                    0 <= j < self.cell_buffer@.len() ==> byte_len(#[trigger] self.cell_buffer@[j]@)
                        <= usize::MAX,
                s@ == start + seq!['│'] + joined_upto(parts, '│', i as nat),
            decreases n - i,
        {
            proof {
                reveal_strlit("│");
            }
            Self::append_centered(s, self.cell_buffer[i].as_str(), self.columns[i].1);
            if i < n - 1 {
                s.append("│");
            }
            assert(s@ =~= start + seq!['│'] + joined_upto(parts, '│', (i + 1) as nat));
            i = i + 1;
        }
        s.append("│");
        assert(s@ =~= old(s)@ + cells_row(self@.cells, self@.widths));
    }

    /// The row being filled in, preceded by a carriage return so that it
    /// overwrites the previous rendering of the same row.
    fn current_row_inline(&self) -> (r: String)
        ensures
            r@ == seq!['\r'] + cells_row(self@.cells, self@.widths),
    {
        proof {
            reveal_strlit("\r");
        }
        let mut result = String::new();
        result.append("\r");
        self.append_buffer_cells(&mut result);
        assert(result@ =~= seq!['\r'] + cells_row(self@.cells, self@.widths));
        result
    }

    /// Opens a new row with empty cells and returns what precedes it: the
    /// header (before the first row) or a separator (after a completed row).
    fn open_row(&mut self) -> (out: String)
        ensures
            out@ == old(self)@.before_row_text(),
            final(self)@ == (TableView {
                cells: empty_cells(old(self)@.widths.len()),
                header_printed: true,
                row_started: true,
                ..old(self)@
            }),
    {
        proof {
            use_type_invariant(&*self);
        }
        let mut out = String::new();
        if !self.header_printed {
            out = self.format_header();
            self.header_printed = true;
        } else if self.current_row > 0 {
            out = self.format_separator();
        }
        let n = self.columns.len();
        let mut cleared: Vec<String> = Vec::new();
        let mut i: usize = 0;
        while i < n
            invariant
                i <= n,
                cleared@.len() == i,
                forall|j: int| 0 <= j < i ==> (#[trigger] cleared@[j])@ == Seq::<char>::empty(),
            decreases n - i,
        {
            cleared.push(String::new());
            i = i + 1;
        }
        assert(cleared@.map_values(|c: String| c@) =~= empty_cells(n as nat));
        self.cell_buffer = cleared;
        self.row_started = true;
        assert(self@.cells =~= empty_cells(old(self)@.widths.len()));
        assert(self@.names =~= old(self)@.names);
        assert(self@.widths =~= old(self)@.widths);
        out
    }

    /// Starts a new row: the header (before the first row) or a separator
    /// (after a completed row), then the row with empty cells, to be
    /// updated in place by [`Table::set_cell`].
    pub fn start_row(&mut self) -> (out: String)
        ensures
            out@ == old(self)@.before_row_text() + seq!['\r'] + cells_row(
                empty_cells(old(self)@.widths.len()),
                old(self)@.widths,
            ),
            final(self)@ == (TableView {
                cells: empty_cells(old(self)@.widths.len()),
                header_printed: true,
                row_started: true,
                ..old(self)@
            }),
    {
        let mut out = self.open_row();
        let row = self.current_row_inline();
        out.append(row.as_str());
        out
    }

    /// Sets cell `col` of the row being filled in and returns the row to
    /// draw over the previous one. When no row is being filled in, setting
    /// a cell starts one as [`Table::start_row`] does, so the returned text
    /// begins with the header or separator. An index past the last column
    /// is ignored.
    pub fn set_cell(&mut self, col: usize, value: &str) -> (out: String)
        requires
            byte_len(value@) <= usize::MAX,
        ensures
            col < old(self)@.widths.len() ==> final(self)@ == (TableView {
                cells: (if old(self)@.row_started {
                    old(self)@.cells
                } else {
                    empty_cells(old(self)@.widths.len())
                }).update(col as int, value@),
                header_printed: true,
                row_started: true,
                ..old(self)@
            }),
            col >= old(self)@.widths.len() ==> final(self)@ == old(self)@,
            out@ == (if col < old(self)@.widths.len() {
                (if old(self)@.row_started {
                    Seq::<char>::empty()
                } else {
                    old(self)@.before_row_text()
                }) + seq!['\r'] + cells_row(final(self)@.cells, final(self)@.widths)
            } else {
                Seq::<char>::empty()
            }),
    {
        proof {
            use_type_invariant(&*self);
        }
        if col >= self.cell_buffer.len() {
            return String::new();
        }
        let mut out = if self.row_started {
            String::new()
        } else {
            self.open_row()
        };
        proof {
            use_type_invariant(&*self);
        }
        let ghost opened = self@;
        let n = self.cell_buffer.len();
        let mut updated: Vec<String> = Vec::new();
        let mut i: usize = 0;
        while i < n
            invariant
                i <= n,
                n == self.cell_buffer@.len(),
                col < n,
                byte_len(value@) <= usize::MAX,
                forall|j: int|
                    0 <= j < self.cell_buffer@.len() ==> byte_len(
                        #[trigger] self.cell_buffer@[j]@,
                    ) <= usize::MAX,
                updated@.len() == i,
                forall|j: int|
                    0 <= j < i ==> (#[trigger] updated@[j])@ == (if j == col {
                        value@
                    } else {
                        self.cell_buffer@[j]@
                    }),
            decreases n - i,
        {
            if i == col {
                updated.push(value.to_owned());
            } else {
                updated.push(self.cell_buffer[i].clone());
            }
            i = i + 1;
        }
        self.cell_buffer = updated;
        assert(self@.cells =~= opened.cells.update(col as int, value@));
        assert(self@.names =~= opened.names);
        assert(self@.widths =~= opened.widths);
        let row = self.current_row_inline();
        out.append(row.as_str());
        out
    }

    /// Ends the row being filled in with a newline and counts it.
    pub fn flush_row(&mut self) -> (out: String)
        requires
            old(self)@.row_started ==> old(self)@.current_row < usize::MAX,
        ensures
            old(self)@.row_started ==> out@ == seq!['\n'] && final(self)@ == (TableView {
                current_row: old(self)@.current_row + 1,
                row_started: false,
                ..old(self)@
            }),
            !old(self)@.row_started ==> out@ == Seq::<char>::empty() && final(self)@ == old(
                self,
            )@,
    {
        proof {
            reveal_strlit("\n");
            use_type_invariant(&*self);
        }
        if self.row_started {
            self.current_row = self.current_row + 1;
            self.row_started = false;
            let mut out = String::new();
            out.append("\n");
            return out;
        }
        String::new()
    }

    /// Adds a complete row: the header before the first row, a separator
    /// before every later one, then the row itself.
    pub fn add_row(&mut self, cells: &[&str]) -> (out: String)
        requires
            old(self)@.current_row < usize::MAX,
            forall|i: int| 0 <= i < cells@.len() ==> byte_len(#[trigger] cells@[i]@) <= usize::MAX,
        ensures
            out@ == old(self)@.add_row_text(strs_view(cells@)),
            final(self)@ == old(self)@.add_row_view(),
    {
        proof {
            use_type_invariant(&*self);
        }
        let mut out = if !self.header_printed {
            self.format_header()
        } else {
            self.format_separator()
        };
        self.header_printed = true;
        let row = self.format_row(cells);
        out.append(row.as_str());
        self.current_row = self.current_row + 1;
        assert(out@ =~= old(self)@.add_row_text(strs_view(cells@)));
        out
    }

    /// Ends the table with its footer, once, and only if the header was
    /// emitted.
    pub fn finish(&mut self) -> (out: String)
        ensures
            !old(self)@.finished && old(self)@.header_printed ==> out@ == old(self)@.footer_text()
                && final(self)@ == (TableView { finished: true, ..old(self)@ }),
            !(!old(self)@.finished && old(self)@.header_printed) ==> out@ == Seq::<char>::empty()
                && final(self)@ == old(self)@,
    {
        proof {
            use_type_invariant(&*self);
        }
        if !self.finished && self.header_printed {
            let out = self.format_footer();
            self.finished = true;
            return out;
        }
        String::new()
    }
}

/// The text has no line break.
pub open spec fn has_no_newline(s: Seq<char>) -> bool {
    forall|i: int| 0 <= i < s.len() ==> s[i] != '\n'
}

/// Joining texts without line breaks by a separator that is not one gives
/// a text without line breaks.
proof fn lemma_joined_no_newline(parts: Seq<Seq<char>>, sep: char, k: nat)
    requires
        sep != '\n',
        k <= parts.len(),
        forall|i: int| 0 <= i < parts.len() ==> has_no_newline(#[trigger] parts[i]),
    ensures
        has_no_newline(joined_upto(parts, sep, k)),
    decreases k,
{
    if k > 0 {
        lemma_joined_no_newline(parts, sep, (k - 1) as nat);
        let prev = joined_upto(parts, sep, (k - 1) as nat);
        let p = parts[k - 1];
        assert(has_no_newline(p));
        let tail: Seq<char> = if k < parts.len() {
            seq![sep]
        } else {
            seq![]
        };
        assert(joined_upto(parts, sep, k) == prev + p + tail);
        assert forall|i: int| 0 <= i < (prev + p + tail).len() implies (prev + p + tail)[i]
            != '\n' by {
            if i < prev.len() {
            } else if i < prev.len() + p.len() {
                assert((prev + p + tail)[i] == p[i - prev.len()]);
            } else {
                assert((prev + p + tail)[i] == tail[i - prev.len() - p.len()]);
            }
        }
    }
}

/// A data row drawn without its newline holds no line break when its cells
/// hold none, and the row with its newline is that text and one line
/// break: the bare row can be redrawn in place.
pub proof fn lemma_row_has_no_newline(t: TableView, cells: Seq<Seq<char>>)
    requires
        forall|i: int| 0 <= i < cells.len() ==> has_no_newline(#[trigger] cells[i]),
    ensures
        has_no_newline(cells_row(cells, t.widths)),
        t.row_text(cells) == cells_row(cells, t.widths) + seq!['\n'],
{
    let widths = t.widths;
    let parts = Seq::new(widths.len(), |i: int| centered(cell_or_empty(cells, i), widths[i]));
    assert forall|i: int| 0 <= i < parts.len() implies has_no_newline(#[trigger] parts[i]) by {
        let c = cell_or_empty(cells, i);
        let pad = sat_sub(widths[i], byte_len(c));
        let a = repeat_char(' ', pad / 2);
        let b = repeat_char(' ', (pad - pad / 2) as nat);
        assert(parts[i] == a + c + b);
        assert(has_no_newline(c));
        assert forall|j: int| 0 <= j < (a + c + b).len() implies (a + c + b)[j] != '\n' by {
            if j < a.len() {
            } else if j < a.len() + c.len() {
                assert((a + c + b)[j] == c[j - a.len()]);
            } else {
                assert((a + c + b)[j] == b[j - a.len() - c.len()]);
            }
        }
    }
    lemma_joined_no_newline(parts, '│', widths.len());
    let j = joined(parts, '│');
    let row = seq!['│'] + j + seq!['│'];
    assert(cells_row(cells, widths) == row);
    assert forall|i: int| 0 <= i < row.len() implies row[i] != '\n' by {
        if 1 <= i < 1 + j.len() {
            assert(row[i] == j[i - 1]);
        }
    }
}

/// Adding complete rows to a table gives one header before the first row
/// (only if none was drawn yet, a separator otherwise) and separators
/// between the rows, and counts every row: the header is never drawn a
/// second time.
pub proof fn lemma_add_rows(t: TableView, rows: Seq<Seq<Seq<char>>>)
    requires
        rows.len() > 0,
    ensures
        t.added_rows(rows).0 == (if !t.header_printed {
            t.header_text()
        } else {
            t.separator_text()
        }) + t.rows_body(rows),
        t.added_rows(rows).1 == (TableView {
            header_printed: true,
            current_row: t.current_row + rows.len(),
            ..t
        }),
    decreases rows.len(),
{
    if rows.len() == 1 {
        assert(rows.drop_last() =~= Seq::<Seq<Seq<char>>>::empty());
        assert(t.added_rows(rows.drop_last()) == (Seq::<char>::empty(), t));
    } else {
        lemma_add_rows(t, rows.drop_last());
        let (out, u) = t.added_rows(rows.drop_last());
        assert(u.header_printed);
        assert(u.separator_text() == t.separator_text());
        assert(u.row_text(rows.last()) == t.row_text(rows.last()));
        let first: Seq<char> = if !t.header_printed {
            t.header_text()
        } else {
            t.separator_text()
        };
        assert(out + u.add_row_text(rows.last()) =~= first + t.rows_body(rows));
    }
}

} // verus!
