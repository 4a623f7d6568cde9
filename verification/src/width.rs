//! Display width of text as it appears in a terminal, and the width of
//! multi-line text blocks: the widest of their lines.

use vstd::prelude::*;

verus! {

/// Display width, in terminal columns, of a sequence of characters, under
/// Unicode east-asian-width and combining-character rules. A function of the
/// characters alone; not the character count and not the byte count.
pub uninterp spec fn display_width(s: Seq<char>) -> nat;

/// Relies on `unicode_width::UnicodeWidthStr::width`: the displayed width of
/// a string in terminal columns, computed from its characters alone (an empty
/// string occupies no columns).
#[verifier::external_body]
pub(crate) fn text_width(s: &str) -> (r: usize)
    ensures
        r as nat == display_width(s@),
        s@.len() == 0 ==> r == 0,
{
    unicode_width::UnicodeWidthStr::width(s)
}

/// `n` copies of the character `c`.
pub open spec fn repeat_char(c: char, n: nat) -> Seq<char> {
    Seq::new(n, |i: int| c)
}

/// A run of `n` spaces, used to pad a label out to a shared column width.
pub(crate) fn spaces(n: usize) -> (r: String)
    ensures
        r@ == repeat_char(' ', n as nat),
{
    let mut out = String::new();
    let mut i: usize = 0;
    while i < n
        invariant
            i <= n,
            out@ == repeat_char(' ', i as nat),
        decreases n - i,
    {
        out.append(" ");
        proof {
            reveal_strlit(" ");
            assert(out@ =~= repeat_char(' ', (i + 1) as nat));
        }
        i = i + 1;
    }
    out
}

/// One trailing carriage return is dropped when a line is cut at a newline,
/// so that a `"\r\n"` terminator leaves no stray character on the line.
pub open spec fn chomp_cr(l: Seq<char>) -> Seq<char> {
    if l.len() > 0 && l[l.len() - 1] == '\r' {
        l.take(l.len() - 1)
    } else {
        l
    }
}

/// The lines of `s` from position `i` on, where `start` marks the beginning
/// of the line being scanned: lines are cut at `'\n'` (a preceding `'\r'` is
/// dropped), a final line without a terminator is kept as it stands, and a
/// terminator at the very end adds no empty line.
pub open spec fn lines_from(s: Seq<char>, i: nat, start: nat) -> Seq<Seq<char>>
    decreases s.len() - i,
    when start <= i <= s.len()
{
    if i >= s.len() {
        if i > start {
            seq![s.subrange(start as int, i as int)]
        } else {
            seq![]
        }
    } else if s[i as int] == '\n' {
        seq![chomp_cr(s.subrange(start as int, i as int))] + lines_from(s, i + 1, i + 1)
    } else {
        lines_from(s, i + 1, start)
    }
}

/// The lines of `s`, cut as `str::lines` cuts them.
pub open spec fn lines_of(s: Seq<char>) -> Seq<Seq<char>> {
    lines_from(s, 0, 0)
}

/// The widest display width among a sequence of lines.
pub open spec fn max_line_width(ls: Seq<Seq<char>>) -> nat
    decreases ls.len(),
{
    if ls.len() == 0 {
        0
    } else {
        let w = display_width(ls[0]);
        let rest = max_line_width(ls.skip(1));
        if w >= rest {
            w
        } else {
            rest
        }
    }
}

/// The layout width of a block of text: the display width of its widest line;
/// zero when there are no lines at all.
pub open spec fn layout_width(s: Seq<char>) -> nat {
    max_line_width(lines_of(s))
}

proof fn lemma_max_line_width_push(ls: Seq<Seq<char>>, l: Seq<char>)
    ensures
        max_line_width(ls.push(l)) == if display_width(l) >= max_line_width(ls) {
            display_width(l)
        } else {
            max_line_width(ls)
        },
    decreases ls.len(),
{
    if ls.len() == 0 {
        assert(ls.push(l)[0] == l);
        assert(ls.push(l).skip(1) =~= Seq::<Seq<char>>::empty());
        assert(max_line_width(ls.push(l).skip(1)) == 0);
    } else {
        assert(ls.push(l)[0] == ls[0]);
        assert(ls.push(l).skip(1) =~= ls.skip(1).push(l));
        lemma_max_line_width_push(ls.skip(1), l);
    }
}

proof fn lemma_lines_from_no_newline(s: Seq<char>, i: nat, start: nat)
    requires
        start <= i <= s.len(),
        forall|j: int| i <= j < s.len() ==> s[j] != '\n',
    ensures
        lines_from(s, i, start) == if s.len() > start {
            seq![s.subrange(start as int, s.len() as int)]
        } else {
            seq![]
        },
    decreases s.len() - i,
{
    if i < s.len() {
        lemma_lines_from_no_newline(s, i + 1, start);
    }
}

/// Text in one line — without a newline, and not empty — is laid out exactly
/// as wide as its display width.
pub proof fn lemma_single_line_layout_width(s: Seq<char>)
    requires
        s.len() > 0,
        forall|j: int| 0 <= j < s.len() ==> s[j] != '\n',
    ensures
        layout_width(s) == display_width(s),
{
    lemma_lines_from_no_newline(s, 0, 0);
    assert(s.subrange(0, s.len() as int) =~= s);
    assert(lines_of(s) == seq![s]);
    assert(seq![s][0] == s);
    assert(seq![s].skip(1) =~= Seq::<Seq<char>>::empty());
    assert(max_line_width(Seq::<Seq<char>>::empty()) == 0);
}

/// The layout width of possibly multi-line text: the widest of its lines.
pub(crate) fn multiline_width(s: &str) -> (r: usize)
    ensures
        r as nat == layout_width(s@),
{
    let n = s.unicode_len();
    let mut best: usize = 0;
    let mut i: usize = 0;
    let mut start: usize = 0;
    let ghost mut done: Seq<Seq<char>> = Seq::<Seq<char>>::empty();
    while i < n
        invariant
            start <= i <= n,
            n == s@.len(),
            lines_of(s@) == done + lines_from(s@, i as nat, start as nat),
            best as nat == max_line_width(done),
        decreases n - i,
    {
        let c = s.get_char(i);
        if c == '\n' {
            let end = if i > start && s.get_char(i - 1) == '\r' {
                i - 1
            } else {
                i
            };
            let line = s.substring_char(start, end);
            proof {
                assert(line@ =~= chomp_cr(s@.subrange(start as int, i as int)));
                lemma_max_line_width_push(done, line@);
                assert(done + (seq![line@] + lines_from(s@, (i + 1) as nat, (i + 1) as nat))
                    =~= done.push(line@) + lines_from(s@, (i + 1) as nat, (i + 1) as nat));
                done = done.push(line@);
            }
            let w = text_width(line);
            if w > best {
                best = w;
            }
            start = i + 1;
        } else {
            proof {
                assert(lines_from(s@, i as nat, start as nat)
                    == lines_from(s@, (i + 1) as nat, start as nat));
            }
        }
        i = i + 1;
    }
    if start < n {
        let line = s.substring_char(start, n);
        let w = text_width(line);
        proof {
            lemma_max_line_width_push(done, line@);
            assert(done + lines_from(s@, n as nat, start as nat) =~= done.push(line@));
        }
        if w > best {
            best = w;
        }
    } else {
        proof {
            assert(done + lines_from(s@, n as nat, start as nat) =~= done);
        }
    }
    best
}

/// A run of `n` fill characters, used for the frame of a block entry.
pub(crate) fn fill(n: usize) -> (r: String)
    ensures
        r@ == repeat_char('=', n as nat),
{
    let mut out = String::new();
    let mut i: usize = 0;
    while i < n
        invariant
            i <= n,
            out@ == repeat_char('=', i as nat),
        decreases n - i,
    {
        out.append("=");
        proof {
            reveal_strlit("=");
            assert(out@ =~= repeat_char('=', (i + 1) as nat));
        }
        i = i + 1;
    }
    out
}

} // verus!
