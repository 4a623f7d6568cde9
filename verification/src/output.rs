//! The table: an ordered sequence of entries — single-line rows aligned on a
//! shared column, framed multi-line blocks, and blank spacers — rendered in
//! append order to one output string.

use crate::markup::{strip_spec, styled_spec};
use crate::width::{display_width, fill, layout_width, multiline_width, repeat_char, spaces,
    text_width};
use vstd::prelude::*;

verus! {

/// Table content holding a pretty string with Minecraft-formatted markup.
pub struct McFormatContent(pub String);

impl McFormatContent {
    /// Whether the marked-up text is empty, so that a caller can leave an
    /// empty entry out of the table altogether.
    pub fn is_empty(&self) -> (r: bool)
        ensures
            r == (self.0@.len() == 0),
    {
        self.0.as_str().is_empty()
    }

    /// The layout width of the content: the display width of its widest
    /// line, with the markup already stripped, since markup occupies no
    /// columns on the screen.
    pub fn width(&self) -> (r: usize)
        ensures
            r as nat == layout_width(strip_spec(self.0@)),
    {
        let stripped = crate::markup::remove_formatting(self.0.as_str());
        multiline_width(stripped.as_str())
    }

    /// The characters this content contributes to the output: its ANSI
    /// translation when styling is on, its stripped text when it is off.
    pub fn render(&self, styled: bool) -> (r: String)
        ensures
            r@ == if styled {
                styled_spec(self.0@)
            } else {
                strip_spec(self.0@)
            },
    {
        if styled {
            crate::markup::mc_formatted_to_ansi(self.0.as_str())
        } else {
            crate::markup::remove_formatting(self.0.as_str())
        }
    }
}

/// What a table entry displays: plain text, written as it stands, or text
/// with Minecraft markup, translated or stripped as the output mode asks.
pub enum TableContent {
    Plain(String),
    McFormat(McFormatContent),
}

/// The layout width of content: the display width of its widest line, with
/// markup not counted.
pub open spec fn content_width_spec(c: TableContent) -> nat {
    match c {
        TableContent::Plain(s) => layout_width(s@),
        TableContent::McFormat(m) => layout_width(strip_spec(m.0@)),
    }
}

/// The characters content contributes to the output stream.
pub open spec fn content_output(c: TableContent, styled: bool) -> Seq<char> {
    match c {
        TableContent::Plain(s) => s@,
        TableContent::McFormat(m) => if styled {
            styled_spec(m.0@)
        } else {
            strip_spec(m.0@)
        },
    }
}

impl TableContent {
    /// The layout width of this content.
    pub fn width(&self) -> (r: usize)
        ensures
            r as nat == content_width_spec(*self),
    {
        match self {
            TableContent::Plain(s) => multiline_width(s.as_str()),
            TableContent::McFormat(m) => m.width(),
        }
    }

    /// The characters this content contributes to the output stream.
    pub fn render(&self, styled: bool) -> (r: String)
        ensures
            r@ == content_output(*self, styled),
    {
        match self {
            TableContent::Plain(s) => s.clone(),
            TableContent::McFormat(m) => m.render(styled),
        }
    }
}

/// A single-line entry: a label and content, aligned on the shared column
/// width of all small entries in the table.
pub struct SmallTableEntry(pub String, pub TableContent);

/// A framed multi-line entry: a header line with the label centred in fill
/// characters, the content, and a closing fill line.  The frame width is
/// fixed when the entry is built.
pub struct BigTableEntry {
    pub name: String,
    pub val: TableContent,
    pub width: usize,
}

/// A spacer entry: renders as one empty line.
pub struct BlankTableEntry;

/// One entry of a table.
pub enum TableEntry {
    Small(SmallTableEntry),
    Big(BigTableEntry),
    Blank(BlankTableEntry),
}

/// The frame width of a block entry: wide enough for the content and for the
/// label with two fill characters on either side, but never above the
/// configured ceiling — even when the label itself then overflows the frame,
/// which is accepted cosmetic degradation, not an error.
pub open spec fn block_width_spec(label_w: nat, content_w: nat, max_w: Option<usize>) -> nat {
    let framed = if label_w + 4 <= usize::MAX {
        label_w + 4
    } else {
        usize::MAX as nat
    };
    let w = if content_w > framed {
        content_w
    } else {
        framed
    };
    match max_w {
        Option::None => w,
        Option::Some(m) => if w > m {
            m as nat
        } else {
            w
        },
    }
}

/// The block entry that `big_entry` appends: its frame width is computed
/// from the label, the content, and the ceiling in force at append time.
pub open spec fn big_entry_spec(name: String, val: TableContent, max_w: Option<usize>) -> BigTableEntry {
    BigTableEntry {
        name: name,
        val: val,
        width: block_width_spec(display_width(name@), content_width_spec(val), max_w) as usize,
    }
}

impl BigTableEntry {
    /// Builds a block entry, fixing its frame width now from the label, the
    /// content, and the width ceiling currently in force.
    pub fn new(name: String, val: TableContent, max_width: Option<usize>) -> (r: BigTableEntry)
        ensures
            r == big_entry_spec(name, val, max_width),
    {
        let label_w = text_width(name.as_str());
        let content_w = val.width();
        let framed = if label_w <= usize::MAX - 4 {
            label_w + 4
        } else {
            usize::MAX
        };
        let mut w = if content_w > framed {
            content_w
        } else {
            framed
        };
        if let Option::Some(m) = max_width {
            if w > m {
                w = m;
            }
        }
        BigTableEntry { name, val, width: w }
    }
}

/// The padding that aligns a label to the shared column width `w`: spaces
/// out to `w` display columns, none when the label is already as wide.
pub open spec fn label_padding(label: Seq<char>, w: nat) -> Seq<char> {
    if display_width(label) < w {
        repeat_char(' ', (w - display_width(label)) as nat)
    } else {
        Seq::empty()
    }
}

/// The header line of a block entry: the label centred in a line of `w` fill
/// characters, with the extra column on the right when the padding is odd; a
/// label at least as wide as the frame stands alone.
pub open spec fn header_line(label: Seq<char>, w: nat) -> Seq<char> {
    let dw = display_width(label);
    if dw >= w {
        label
    } else {
        let left = ((w - dw) as nat) / 2;
        let right = ((w - dw) as nat - left) as nat;
        repeat_char('=', left) + label + repeat_char('=', right)
    }
}

/// The characters one entry contributes to the rendered table, `w` being the
/// shared small-entry column width.
pub open spec fn entry_output(e: TableEntry, w: nat, styled: bool) -> Seq<char> {
    match e {
        TableEntry::Small(se) => se.0@ + label_padding(se.0@, w) + seq![' ', '|', ' ']
            + content_output(se.1, styled) + seq!['\n'],
        TableEntry::Big(be) => header_line(be.name@, be.width as nat) + seq!['\n']
            + content_output(be.val, styled) + seq!['\n'] + repeat_char('=', be.width as nat)
            + seq!['\n'],
        TableEntry::Blank(_) => seq!['\n'],
    }
}

/// The output of the first `k` entries, concatenated in append order.
pub open spec fn table_output_upto(entries: Seq<TableEntry>, k: nat, w: nat, styled: bool) -> Seq<
    char,
>
    decreases k,
    when k <= entries.len()
{
    if k == 0 {
        Seq::empty()
    } else {
        table_output_upto(entries, (k - 1) as nat, w, styled) + entry_output(
            entries[k - 1],
            w,
            styled,
        )
    }
}

/// The output of every entry, in append order.
pub open spec fn table_output(entries: Seq<TableEntry>, w: nat, styled: bool) -> Seq<char> {
    table_output_upto(entries, entries.len(), w, styled)
}

/// A table under construction: the entries in append order, the shared
/// column width of the small entries appended so far, and the configured
/// ceiling on block frame width, unbounded when `None`.
pub struct Table {
    pub entries: Vec<TableEntry>,
    pub small_entry_width: usize,
    pub max_block_width: Option<usize>,
}

impl Table {
    /// An empty table.  `max_block_width` is the ceiling on block entry
    /// frames, unbounded when `None`.
    pub fn new(max_block_width: Option<usize>) -> (r: Table)
        ensures
            r.entries@ == Seq::<TableEntry>::empty(),
            r.small_entry_width == 0,
            r.max_block_width == max_block_width,
    {
        Table { entries: Vec::new(), small_entry_width: 0, max_block_width }
    }

    /// Appends a spacer entry; it will render as exactly one empty line.
    pub fn blank(&mut self)
        ensures
            final(self).entries@ == old(self).entries@.push(TableEntry::Blank(BlankTableEntry)),
            final(self).small_entry_width == old(self).small_entry_width,
            final(self).max_block_width == old(self).max_block_width,
    {
        self.entries.push(TableEntry::Blank(BlankTableEntry));
    }

    /// Appends a single-line entry, widening the shared column width to the
    /// label's display width when that is larger.
    pub fn small_entry(&mut self, name: String, val: TableContent)
        ensures
            final(self).entries@ == old(self).entries@.push(
                TableEntry::Small(SmallTableEntry(name, val)),
            ),
            final(self).small_entry_width as nat == if display_width(name@) > old(
                self,
            ).small_entry_width as nat {
                display_width(name@)
            } else {
                old(self).small_entry_width as nat
            },
            final(self).max_block_width == old(self).max_block_width,
    {
        let w = text_width(name.as_str());
        self.set_small_width(w);
        self.entries.push(TableEntry::Small(SmallTableEntry(name, val)));
    }

    /// Appends a block entry; its frame width is fixed now, from the ceiling
    /// currently in force, so a later change of ceiling cannot resize it.
    pub fn big_entry(&mut self, name: String, val: TableContent)
        ensures
            final(self).entries@ == old(self).entries@.push(
                TableEntry::Big(big_entry_spec(name, val, old(self).max_block_width)),
            ),
            final(self).small_entry_width == old(self).small_entry_width,
            final(self).max_block_width == old(self).max_block_width,
    {
        let e = BigTableEntry::new(name, val, self.max_block_width);
        self.entries.push(TableEntry::Big(e));
    }

    /// Widens the shared small-entry column width; never narrows it.
    fn set_small_width(&mut self, width: usize)
        ensures
            final(self).small_entry_width == if width > old(self).small_entry_width {
                width
            } else {
                old(self).small_entry_width
            },
            final(self).entries == old(self).entries,
            final(self).max_block_width == old(self).max_block_width,
    {
        if width > self.small_entry_width {
            self.small_entry_width = width;
        }
    }

    /// Renders every entry, in append order, into one output string.  With
    /// `styled` set, marked-up content becomes ANSI escape sequences;
    /// without it, markup is stripped.
    pub fn print(&self, styled: bool) -> (r: String)
        ensures
            r@ == table_output(self.entries@, self.small_entry_width as nat, styled),
    {
        let n = self.entries.len();
        let mut out = String::new();
        let mut k: usize = 0;
        while k < n
            invariant
                k <= n,
                n == self.entries@.len(),
                out@ == table_output_upto(
                    self.entries@,
                    k as nat,
                    self.small_entry_width as nat,
                    styled,
                ),
            decreases n - k,
        {
            let piece = render_entry(&self.entries[k], self.small_entry_width, styled);
            out.append(piece.as_str());
            k = k + 1;
        }
        out
    }
}

impl core::default::Default for Table {
    /// An empty table with no ceiling on block frame width.
    fn default() -> (r: Table)
        ensures
            r.entries@ == Seq::<TableEntry>::empty(),
            r.small_entry_width == 0,
            r.max_block_width == Option::None::<usize>,
    {
        Table::new(Option::None)
    }
}

/// The rendering of one entry on the shared column width `w`.
fn render_entry(e: &TableEntry, w: usize, styled: bool) -> (r: String)
    ensures
        r@ == entry_output(*e, w as nat, styled),
{
    match e {
        TableEntry::Small(se) => {
            let mut out = String::new();
            out.append(se.0.as_str());
            let lw = text_width(se.0.as_str());
            if lw < w {
                let pad = spaces(w - lw);
                out.append(pad.as_str());
            }
            out.append(" | ");
            let body = se.1.render(styled);
            out.append(body.as_str());
            out.append("\n");
            proof {
                reveal_strlit(" | ");
                reveal_strlit("\n");
                assert(" | "@ =~= seq![' ', '|', ' ']);
                assert("\n"@ =~= seq!['\n']);
                assert(out@ =~= entry_output(*e, w as nat, styled));
            }
            out
        },
        TableEntry::Big(be) => {
            let mut out = String::new();
            let dw = text_width(be.name.as_str());
            if dw >= be.width {
                out.append(be.name.as_str());
            } else {
                let left = (be.width - dw) / 2;
                let left_fill = fill(left);
                out.append(left_fill.as_str());
                out.append(be.name.as_str());
                let right_fill = fill(be.width - dw - left);
                out.append(right_fill.as_str());
            }
            out.append("\n");
            let body = be.val.render(styled);
            out.append(body.as_str());
            out.append("\n");
            let foot = fill(be.width);
            out.append(foot.as_str());
            out.append("\n");
            proof {
                reveal_strlit("\n");
                assert("\n"@ =~= seq!['\n']);
                assert(out@ =~= entry_output(*e, w as nat, styled));
            }
            out
        },
        TableEntry::Blank(_) => {
            let mut out = String::new();
            out.append("\n");
            proof {
                reveal_strlit("\n");
                assert(out@ =~= seq!['\n']);
            }
            out
        },
    }
}

/// The widest display width among the labels of the small entries of `es`.
pub open spec fn small_labels_width(es: Seq<TableEntry>) -> nat
    decreases es.len(),
{
    if es.len() == 0 {
        0
    } else {
        let rest = small_labels_width(es.drop_last());
        match es.last() {
            TableEntry::Small(se) => {
                let w = display_width(se.0@);
                if w > rest {
                    w
                } else {
                    rest
                }
            },
            TableEntry::Big(_) => rest,
            TableEntry::Blank(_) => rest,
        }
    }
}

/// The shared column width tracks the labels: starting from an empty table,
/// whose width is zero, appending a small entry raises the width exactly to
/// the maximum label display width seen so far — so it never decreases — and
/// appending a block or blank entry leaves it unchanged.
pub proof fn lemma_column_width_tracks_labels(
    es: Seq<TableEntry>,
    w: nat,
    name: String,
    val: TableContent,
)
    ensures
        small_labels_width(Seq::<TableEntry>::empty()) == 0,
        w == small_labels_width(es) ==> ({
            let w2 = if display_width(name@) > w {
                display_width(name@)
            } else {
                w
            };
            w2 == small_labels_width(es.push(TableEntry::Small(SmallTableEntry(name, val))))
                && w2 >= w
        }),
        w == small_labels_width(es) ==> forall|be: BigTableEntry|
            w == #[trigger] small_labels_width(es.push(TableEntry::Big(be))),
        w == small_labels_width(es) ==> w == small_labels_width(
            es.push(TableEntry::Blank(BlankTableEntry)),
        ),
{
    assert forall|e: TableEntry| small_labels_width(es.push(e)) == ({
        let rest = small_labels_width(es);
        match e {
            TableEntry::Small(se) => {
                let lw = display_width(se.0@);
                if lw > rest {
                    lw
                } else {
                    rest
                }
            },
            TableEntry::Big(_) => rest,
            TableEntry::Blank(_) => rest,
        }
    }) by {
        assert(es.push(e).drop_last() =~= es);
        assert(es.push(e).last() == e);
    }
}

/// The frame width of a block entry is `max(label width + 4, content width)`
/// clamped to the ceiling, whenever the label width plus its frame fits the
/// machine's word.
pub proof fn lemma_block_width_is_clamped_max(label_w: nat, content_w: nat, max_w: Option<usize>)
    ensures
        label_w + 4 <= usize::MAX ==> ({
            let unclamped = if content_w > label_w + 4 {
                content_w
            } else {
                label_w + 4
            };
            block_width_spec(label_w, content_w, max_w) == match max_w {
                Option::None => unclamped,
                Option::Some(m) => if unclamped > m {
                    m as nat
                } else {
                    unclamped
                },
            }
        }),
{
}

/// A block entry's closing line is exactly its frame width of fill
/// characters, and its header line centres the label between two fill runs
/// that together make up the frame width, the right run wider by at most one
/// column; a label at least as wide as the frame stands alone.
pub proof fn lemma_block_frame_lines(label: Seq<char>, w: nat)
    ensures
        repeat_char('=', w).len() == w,
        display_width(label) < w ==> ({
            let pad = (w - display_width(label)) as nat;
            let left = pad / 2;
            let right = (pad - left) as nat;
            header_line(label, w) == repeat_char('=', left) + label + repeat_char('=', right)
                && left + right == pad && left <= right <= left + 1
        }),
        display_width(label) >= w ==> header_line(label, w) == label,
{
}

/// Markup occupies no columns: marked-up content is laid out exactly as wide
/// as its stripped text shown plain.
pub proof fn lemma_width_ignores_markup(m: McFormatContent, plain: String)
    requires
        plain@ == strip_spec(m.0@),
    ensures
        content_width_spec(TableContent::McFormat(m)) == content_width_spec(
            TableContent::Plain(plain),
        ),
{
}

proof fn lemma_table_output_upto_prefix(
    es1: Seq<TableEntry>,
    es2: Seq<TableEntry>,
    k: nat,
    w: nat,
    styled: bool,
)
    requires
        k <= es1.len(),
        k <= es2.len(),
        forall|j: int| 0 <= j < k ==> es1[j] == es2[j],
    ensures
        table_output_upto(es1, k, w, styled) == table_output_upto(es2, k, w, styled),
    decreases k,
{
    if k > 0 {
        lemma_table_output_upto_prefix(es1, es2, (k - 1) as nat, w, styled);
    }
}

/// Entries render independently: the output of a table is the output of any
/// front part followed by the output of the rest.
pub proof fn lemma_table_output_concat(a: Seq<TableEntry>, b: Seq<TableEntry>, w: nat, styled: bool)
    ensures
        table_output(a + b, w, styled) == table_output(a, w, styled) + table_output(b, w, styled),
    decreases b.len(),
{
    if b.len() == 0 {
        assert(a + b =~= a);
        assert(table_output(a, w, styled) + table_output(b, w, styled) =~= table_output(
            a,
            w,
            styled,
        ));
    } else {
        let b1 = b.drop_last();
        let e = b.last();
        lemma_table_output_concat(a, b1, w, styled);
        assert(a + b =~= (a + b1).push(e));
        let full = (a + b1).push(e);
        assert(table_output(full, w, styled) == table_output_upto(
            full,
            (full.len() - 1) as nat,
            w,
            styled,
        ) + entry_output(e, w, styled));
        lemma_table_output_upto_prefix(full, a + b1, (full.len() - 1) as nat, w, styled);
        lemma_table_output_upto_prefix(b, b1, (b.len() - 1) as nat, w, styled);
        assert(table_output(b, w, styled) == table_output(b1, w, styled) + entry_output(
            e,
            w,
            styled,
        ));
        assert((table_output(a, w, styled) + table_output(b1, w, styled)) + entry_output(
            e,
            w,
            styled,
        ) =~= table_output(a, w, styled) + (table_output(b1, w, styled) + entry_output(
            e,
            w,
            styled,
        )));
    }
}

/// A blank entry contributes exactly one newline and nothing else, whatever
/// stands around it.
pub proof fn lemma_blank_is_one_newline(es: Seq<TableEntry>, i: int, w: nat, styled: bool)
    requires
        0 <= i < es.len(),
        es[i] == TableEntry::Blank(BlankTableEntry),
    ensures
        table_output(es, w, styled) == table_output(es.take(i), w, styled) + seq!['\n']
            + table_output(es.skip(i + 1), w, styled),
{
    let front = es.take(i);
    let back = es.skip(i + 1);
    let middle = seq![es[i]];
    assert(es =~= front + (middle + back));
    lemma_table_output_concat(front, middle + back, w, styled);
    lemma_table_output_concat(middle, back, w, styled);
    assert(table_output(middle, w, styled) == table_output_upto(middle, 0, w, styled)
        + entry_output(middle[0], w, styled));
    assert(table_output(middle, w, styled) =~= seq!['\n']);
    assert((table_output(front, w, styled) + (seq!['\n'] + table_output(back, w, styled))) =~= (
    table_output(front, w, styled) + seq!['\n'] + table_output(back, w, styled)));
}

/// The widest display width among the labels of the first `k` pairs.
pub open spec fn labels_max_upto(pairs: Seq<(String, String)>, k: nat) -> nat
    decreases k,
    when k <= pairs.len()
{
    if k == 0 {
        0
    } else {
        let rest = labels_max_upto(pairs, (k - 1) as nat);
        let w = display_width(pairs[k - 1].0@);
        if w > rest {
            w
        } else {
            rest
        }
    }
}

/// The widest display width among the pairs' labels.
pub open spec fn pairs_label_width(pairs: Seq<(String, String)>) -> nat {
    labels_max_upto(pairs, pairs.len())
}

/// The small entries that a sequence of label/value pairs builds.
pub open spec fn pairs_entries(pairs: Seq<(String, String)>) -> Seq<TableEntry> {
    pairs.map_values(
        |p: (String, String)| TableEntry::Small(SmallTableEntry(p.0, TableContent::Plain(p.1))),
    )
}

/// The first `k` labels joined with newlines, with no trailing newline.
pub open spec fn joined_labels_upto(pairs: Seq<(String, String)>, k: nat) -> Seq<char>
    decreases k,
    when k <= pairs.len()
{
    if k == 0 {
        Seq::empty()
    } else if k == 1 {
        pairs[0].0@
    } else {
        joined_labels_upto(pairs, (k - 1) as nat) + seq!['\n'] + pairs[k - 1].0@
    }
}

/// All the labels joined with newlines, with no trailing newline.
pub open spec fn joined_labels(pairs: Seq<(String, String)>) -> Seq<char> {
    joined_labels_upto(pairs, pairs.len())
}

/// Formats label/value pairs as a readable list: with `second_column`, a
/// two-column table aligned like a run of small entries; without it, the
/// left values alone, one per line.
pub fn get_table(entries: &Vec<(String, String)>, second_column: bool) -> (r: String)
    ensures
        second_column ==> r@ == table_output(
            pairs_entries(entries@),
            pairs_label_width(entries@),
            false,
        ),
        !second_column ==> r@ == joined_labels(entries@),
{
    let n = entries.len();
    if second_column {
        let mut table = Table::new(Option::None);
        let mut k: usize = 0;
        while k < n
            invariant
                k <= n,
                n == entries@.len(),
                table.entries@ == pairs_entries(entries@).take(k as int),
                table.small_entry_width as nat == labels_max_upto(entries@, k as nat),
            decreases n - k,
        {
            let name = entries[k].0.clone();
            let val = entries[k].1.clone();
            table.small_entry(name, TableContent::Plain(val));
            proof {
                assert(pairs_entries(entries@).take(k as int).push(
                    pairs_entries(entries@)[k as int],
                ) =~= pairs_entries(entries@).take(k + 1));
            }
            k = k + 1;
        }
        proof {
            assert(pairs_entries(entries@).take(n as int) =~= pairs_entries(entries@));
        }
        table.print(false)
    } else {
        let mut out = String::new();
        let mut k: usize = 0;
        while k < n
            invariant
                k <= n,
                n == entries@.len(),
                out@ == joined_labels_upto(entries@, k as nat),
            decreases n - k,
        {
            if k > 0 {
                out.append("\n");
                proof {
                    reveal_strlit("\n");
                    assert("\n"@ =~= seq!['\n']);
                }
            }
            out.append(entries[k].0.as_str());
            proof {
                if k == 0 {
                    assert(out@ =~= joined_labels_upto(entries@, (k + 1) as nat));
                } else {
                    assert(out@ =~= joined_labels_upto(entries@, (k + 1) as nat));
                }
            }
            k = k + 1;
        }
        out
    }
}

} // verus!
