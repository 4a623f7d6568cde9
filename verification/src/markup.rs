//! Minecraft's inline markup: a sentinel character followed by one code
//! character selects a foreground colour or a text attribute.  The markup can
//! either be stripped, leaving the literal text, or translated into ANSI
//! escape sequences for a terminal.

use crossterm::style::{Attribute, Color, Colored, ResetColor, SetAttribute, SetForegroundColor};
use crossterm::Command;
use vstd::prelude::*;

verus! {

/// The markup sentinel: the section sign that introduces a colour or
/// attribute code in server-supplied text.
pub open spec fn sentinel() -> char {
    '\u{a7}'
}

/// The escape character that introduces an ANSI control sequence.
pub open spec fn esc() -> char {
    '\u{1b}'
}

/// A text attribute that a markup code can select.
#[derive(Clone, Copy, Debug, PartialEq, Eq, Structural)]
pub enum TextAttribute {
    /// Rendered as rapid blink, the closest ANSI relative of the obfuscated
    /// effect; few terminals support either.
    Obfuscated,
    Bold,
    Strikethrough,
    Underline,
    Italic,
}

/// What one markup code character selects: a palette colour, a text
/// attribute, a reset of all styling, or nothing at all.
#[derive(Clone, Copy, Debug, PartialEq, Eq, Structural)]
pub enum CodeAction {
    Color(u8),
    Attr(TextAttribute),
    Reset,
    Ignored,
}

/// The action selected by the code character after a sentinel: `'0'`-`'9'`
/// and `'a'`-`'f'` pick the sixteen palette colours (by their ANSI palette
/// index), `'k'`-`'o'` pick text attributes, `'r'` resets all styling, and
/// every other character is swallowed with no effect.
pub open spec fn code_action(c: char) -> CodeAction {
    if c == '0' {
        CodeAction::Color(0)
    } else if c == '1' {
        CodeAction::Color(4)
    } else if c == '2' {
        CodeAction::Color(2)
    } else if c == '3' {
        CodeAction::Color(6)
    } else if c == '4' {
        CodeAction::Color(1)
    } else if c == '5' {
        CodeAction::Color(5)
    } else if c == '6' {
        CodeAction::Color(3)
    } else if c == '7' {
        CodeAction::Color(7)
    } else if c == '8' {
        CodeAction::Color(8)
    } else if c == '9' {
        CodeAction::Color(12)
    } else if c == 'a' {
        CodeAction::Color(10)
    } else if c == 'b' {
        CodeAction::Color(14)
    } else if c == 'c' {
        CodeAction::Color(9)
    } else if c == 'd' {
        CodeAction::Color(13)
    } else if c == 'e' {
        CodeAction::Color(11)
    } else if c == 'f' {
        CodeAction::Color(15)
    } else if c == 'k' {
        CodeAction::Attr(TextAttribute::Obfuscated)
    } else if c == 'l' {
        CodeAction::Attr(TextAttribute::Bold)
    } else if c == 'm' {
        CodeAction::Attr(TextAttribute::Strikethrough)
    } else if c == 'n' {
        CodeAction::Attr(TextAttribute::Underline)
    } else if c == 'o' {
        CodeAction::Attr(TextAttribute::Italic)
    } else if c == 'r' {
        CodeAction::Reset
    } else {
        CodeAction::Ignored
    }
}

/// The digit character for `n` below ten.
pub open spec fn digit(n: nat) -> char {
    if n == 0 {
        '0'
    } else if n == 1 {
        '1'
    } else if n == 2 {
        '2'
    } else if n == 3 {
        '3'
    } else if n == 4 {
        '4'
    } else if n == 5 {
        '5'
    } else if n == 6 {
        '6'
    } else if n == 7 {
        '7'
    } else if n == 8 {
        '8'
    } else {
        '9'
    }
}

/// The decimal digits of a palette index below sixteen.
pub open spec fn palette_digits(n: nat) -> Seq<char> {
    if n < 10 {
        seq![digit(n)]
    } else {
        seq!['1', digit((n - 10) as nat)]
    }
}

/// The ANSI sequence selecting foreground palette colour `n` in 256-colour
/// form: `ESC [ 38 ; 5 ; n m`.
pub open spec fn fg_escape_chars(n: nat) -> Seq<char> {
    seq![esc(), '[', '3', '8', ';', '5', ';'] + palette_digits(n) + seq!['m']
}

/// The single-digit SGR parameter of each supported text attribute.
pub open spec fn attr_sgr(a: TextAttribute) -> char {
    match a {
        TextAttribute::Obfuscated => '6',
        TextAttribute::Bold => '1',
        TextAttribute::Strikethrough => '9',
        TextAttribute::Underline => '4',
        TextAttribute::Italic => '3',
    }
}

/// The ANSI sequence selecting text attribute `a`: `ESC [ sgr m`.
pub open spec fn attr_escape_chars(a: TextAttribute) -> Seq<char> {
    seq![esc(), '[', attr_sgr(a), 'm']
}

/// The ANSI sequence that resets colours and attributes: `ESC [ 0 m`.
pub open spec fn reset_chars() -> Seq<char> {
    seq![esc(), '[', '0', 'm']
}

/// The characters emitted for one markup code when styling is on; an
/// unrecognised code emits nothing.
pub open spec fn escape_of(c: char) -> Seq<char> {
    match code_action(c) {
        CodeAction::Color(n) => fg_escape_chars(n as nat),
        CodeAction::Attr(a) => attr_escape_chars(a),
        CodeAction::Reset => reset_chars(),
        CodeAction::Ignored => Seq::empty(),
    }
}

/// Relies on crossterm's `SetForegroundColor` command with a
/// `Color::AnsiValue` palette index: its `write_ansi` writes `ESC [ 38 ; 5 ;
/// n m`, the index in decimal.  ANSI colour output is re-enabled first so
/// that the sequence does not depend on the `NO_COLOR` environment variable.
#[verifier::external_body]
fn fg_escape(n: u8) -> (r: String)
    requires
        n < 16,
    ensures
        r@ == fg_escape_chars(n as nat),
{
    Colored::set_ansi_color_disabled(false);
    let mut out = String::new();
    let _ = SetForegroundColor(Color::AnsiValue(n)).write_ansi(&mut out);
    out
}

/// Relies on crossterm's `SetAttribute` command: its `write_ansi` writes
/// `ESC [ sgr m`, and the SGR parameter of each attribute used here is a
/// single digit.
#[verifier::external_body]
fn attr_escape(a: TextAttribute) -> (r: String)
    ensures
        r@ == attr_escape_chars(a),
{
    let attr = match a {
        TextAttribute::Obfuscated => Attribute::RapidBlink,
        TextAttribute::Bold => Attribute::Bold,
        TextAttribute::Strikethrough => Attribute::CrossedOut,
        TextAttribute::Underline => Attribute::Underlined,
        TextAttribute::Italic => Attribute::Italic,
    };
    let mut out = String::new();
    let _ = SetAttribute(attr).write_ansi(&mut out);
    out
}

/// Relies on crossterm's `ResetColor` command: its `write_ansi` writes
/// `ESC [ 0 m`.
#[verifier::external_body]
fn reset_escape() -> (r: String)
    ensures
        r@ == reset_chars(),
{
    let mut out = String::new();
    let _ = ResetColor.write_ansi(&mut out);
    out
}

/// The action selected by one markup code character.
fn classify_code(c: char) -> (r: CodeAction)
    ensures
        r == code_action(c),
{
    if c == '0' {
        CodeAction::Color(0)
    } else if c == '1' {
        CodeAction::Color(4)
    } else if c == '2' {
        CodeAction::Color(2)
    } else if c == '3' {
        CodeAction::Color(6)
    } else if c == '4' {
        CodeAction::Color(1)
    } else if c == '5' {
        CodeAction::Color(5)
    } else if c == '6' {
        CodeAction::Color(3)
    } else if c == '7' {
        CodeAction::Color(7)
    } else if c == '8' {
        CodeAction::Color(8)
    } else if c == '9' {
        CodeAction::Color(12)
    } else if c == 'a' {
        CodeAction::Color(10)
    } else if c == 'b' {
        CodeAction::Color(14)
    } else if c == 'c' {
        CodeAction::Color(9)
    } else if c == 'd' {
        CodeAction::Color(13)
    } else if c == 'e' {
        CodeAction::Color(11)
    } else if c == 'f' {
        CodeAction::Color(15)
    } else if c == 'k' {
        CodeAction::Attr(TextAttribute::Obfuscated)
    } else if c == 'l' {
        CodeAction::Attr(TextAttribute::Bold)
    } else if c == 'm' {
        CodeAction::Attr(TextAttribute::Strikethrough)
    } else if c == 'n' {
        CodeAction::Attr(TextAttribute::Underline)
    } else if c == 'o' {
        CodeAction::Attr(TextAttribute::Italic)
    } else if c == 'r' {
        CodeAction::Reset
    } else {
        CodeAction::Ignored
    }
}

/// Appends to `out` the escape sequence selected by the code character `c`.
fn emit_escape(c: char, out: &mut String)
    ensures
        final(out)@ == old(out)@ + escape_of(c),
{
    let action = classify_code(c);
    match action {
        CodeAction::Color(n) => {
            let e = fg_escape(n);
            out.append(e.as_str());
        },
        CodeAction::Attr(a) => {
            let e = attr_escape(a);
            out.append(e.as_str());
        },
        CodeAction::Reset => {
            let e = reset_escape();
            out.append(e.as_str());
        },
        CodeAction::Ignored => {
            proof {
                assert(out@ + Seq::<char>::empty() =~= out@);
            }
        },
    }
}

/// The literal text of marked-up text from position `i` on: every sentinel
/// is dropped together with the code character after it, and a lone sentinel
/// at the very end is dropped too.
pub open spec fn strip_from(s: Seq<char>, i: nat) -> Seq<char>
    decreases s.len() - i,
    when i <= s.len()
{
    if i >= s.len() {
        Seq::empty()
    } else if s[i as int] == sentinel() {
        if i + 1 < s.len() {
            strip_from(s, i + 2)
        } else {
            Seq::empty()
        }
    } else {
        seq![s[i as int]] + strip_from(s, i + 1)
    }
}

/// The marked-up text with every sentinel-and-code pair removed: the literal
/// text segments alone, concatenated in order.
pub open spec fn strip_spec(s: Seq<char>) -> Seq<char> {
    strip_from(s, 0)
}

/// Whether any sentinel occurs in `s`.
pub open spec fn has_sentinel(s: Seq<char>) -> bool {
    exists|j: int| 0 <= j < s.len() && s[j] == sentinel()
}

/// Whether any sentinel occurs in `s` before position `i`.
spec fn has_sentinel_upto(s: Seq<char>, i: nat) -> bool {
    exists|j: int| 0 <= j < i && j < s.len() && s[j] == sentinel()
}

/// The styled output from position `i` on, not counting the final reset:
/// literal text is copied, and each sentinel-and-code pair becomes the escape
/// sequence its code selects.
pub open spec fn styled_from(s: Seq<char>, i: nat) -> Seq<char>
    decreases s.len() - i,
    when i <= s.len()
{
    if i >= s.len() {
        Seq::empty()
    } else if s[i as int] == sentinel() {
        if i + 1 < s.len() {
            escape_of(s[i as int + 1]) + styled_from(s, i + 2)
        } else {
            Seq::empty()
        }
    } else {
        seq![s[i as int]] + styled_from(s, i + 1)
    }
}

/// The full styled output: the translation of the whole text, followed by a
/// final reset whenever any markup was present, so that later terminal
/// output is unaffected.
pub open spec fn styled_spec(s: Seq<char>) -> Seq<char> {
    styled_from(s, 0) + if has_sentinel(s) {
        reset_chars()
    } else {
        Seq::empty()
    }
}

/// A terminal-escape-stripping pass: an `ESC` is removed together with
/// everything up to and including the next `m` — the final byte of every
/// sequence written here — and all other characters are kept.
pub open spec fn ansi_strip(t: Seq<char>) -> Seq<char>
    decreases t.len(), 1int,
{
    if t.len() == 0 {
        Seq::empty()
    } else if t[0] == esc() {
        ansi_skip(t.skip(1))
    } else {
        seq![t[0]] + ansi_strip(t.skip(1))
    }
}

/// The tail of an escape sequence, skipped up to and including its final
/// `m`.
pub open spec fn ansi_skip(t: Seq<char>) -> Seq<char>
    decreases t.len(), 0int,
{
    if t.len() == 0 {
        Seq::empty()
    } else if t[0] == 'm' {
        ansi_strip(t.skip(1))
    } else {
        ansi_skip(t.skip(1))
    }
}

proof fn lemma_ansi_strip_literal(c: char, t: Seq<char>)
    requires
        c != esc(),
    ensures
        ansi_strip(seq![c] + t) == seq![c] + ansi_strip(t),
{
    assert((seq![c] + t)[0] == c);
    assert((seq![c] + t).skip(1) =~= t);
}

proof fn lemma_ansi_skip_body(b: Seq<char>, t: Seq<char>)
    requires
        b.len() >= 1,
        b[b.len() - 1] == 'm',
        forall|j: int| 0 <= j < b.len() - 1 ==> b[j] != 'm',
    ensures
        ansi_skip(b + t) == ansi_strip(t),
    decreases b.len(),
{
    if b.len() == 1 {
        assert((b + t)[0] == 'm');
        assert((b + t).skip(1) =~= t);
    } else {
        assert((b + t)[0] == b[0]);
        assert(b[0] != 'm');
        assert((b + t).skip(1) =~= b.skip(1) + t);
        assert(b.skip(1)[b.skip(1).len() - 1] == b[b.len() - 1]);
        lemma_ansi_skip_body(b.skip(1), t);
    }
}

/// A well-formed escape — `ESC`, a body free of `m`, then `m` — is removed
/// entirely by the stripping pass.
proof fn lemma_ansi_strip_escape(e: Seq<char>, t: Seq<char>)
    requires
        e.len() >= 2,
        e[0] == esc(),
        e[e.len() - 1] == 'm',
        forall|j: int| 1 <= j < e.len() - 1 ==> e[j] != 'm',
    ensures
        ansi_strip(e + t) == ansi_strip(t),
{
    assert((e + t)[0] == esc());
    assert((e + t).skip(1) =~= e.skip(1) + t);
    assert(e.skip(1)[e.skip(1).len() - 1] == e[e.len() - 1]);
    lemma_ansi_skip_body(e.skip(1), t);
}

proof fn lemma_escape_of_wf(c: char)
    ensures
        escape_of(c).len() == 0 || (escape_of(c).len() >= 2 && escape_of(c)[0] == esc()
            && escape_of(c)[escape_of(c).len() - 1] == 'm' && forall|j: int|
            1 <= j < escape_of(c).len() - 1 ==> escape_of(c)[j] != 'm'),
{
    let e = escape_of(c);
    match code_action(c) {
        CodeAction::Color(n) => {
            let digits = palette_digits(n as nat);
            assert(forall|j: int| 0 <= j < digits.len() ==> digits[j] != 'm') by {
                assert(digit(n as nat) != 'm');
                if n >= 10 {
                    assert(digit((n - 10) as nat) != 'm');
                }
            }
            assert(e =~= seq![esc(), '[', '3', '8', ';', '5', ';'] + digits + seq!['m']);
            assert(e[e.len() - 1] == 'm');
            assert(forall|j: int| 1 <= j < e.len() - 1 ==> e[j] != 'm') by {
                assert forall|j: int| 1 <= j < e.len() - 1 implies e[j] != 'm' by {
                    if j < 7 {
                        assert(e[j] == seq![esc(), '[', '3', '8', ';', '5', ';'][j]);
                    } else {
                        assert(e[j] == digits[j - 7]);
                    }
                }
            }
        },
        CodeAction::Attr(a) => {
            assert(attr_sgr(a) != 'm');
            assert(e[0] == esc() && e[1] == '[' && e[2] == attr_sgr(a) && e[3] == 'm');
        },
        CodeAction::Reset => {
            assert(e[0] == esc() && e[1] == '[' && e[2] == '0' && e[3] == 'm');
        },
        CodeAction::Ignored => {
        },
    }
}

proof fn lemma_roundtrip_from(s: Seq<char>, i: nat, suffix: Seq<char>)
    requires
        i <= s.len(),
        forall|j: int| 0 <= j < s.len() ==> s[j] != esc(),
    ensures
        ansi_strip(styled_from(s, i) + suffix) == strip_from(s, i) + ansi_strip(suffix),
    decreases s.len() - i,
{
    if i >= s.len() {
        assert(styled_from(s, i) + suffix =~= suffix);
        assert(strip_from(s, i) + ansi_strip(suffix) =~= ansi_strip(suffix));
    } else if s[i as int] == sentinel() {
        if i + 1 < s.len() {
            let e = escape_of(s[i as int + 1]);
            lemma_escape_of_wf(s[i as int + 1]);
            lemma_roundtrip_from(s, i + 2, suffix);
            assert((e + styled_from(s, i + 2)) + suffix =~= e + (styled_from(s, i + 2) + suffix));
            if e.len() == 0 {
                assert(e + (styled_from(s, i + 2) + suffix) =~= styled_from(s, i + 2) + suffix);
            } else {
                lemma_ansi_strip_escape(e, styled_from(s, i + 2) + suffix);
            }
        } else {
            assert(styled_from(s, i) + suffix =~= suffix);
            assert(strip_from(s, i) + ansi_strip(suffix) =~= ansi_strip(suffix));
        }
    } else {
        let c = s[i as int];
        lemma_roundtrip_from(s, i + 1, suffix);
        assert((seq![c] + styled_from(s, i + 1)) + suffix =~= seq![c] + (styled_from(s, i + 1)
            + suffix));
        lemma_ansi_strip_literal(c, styled_from(s, i + 1) + suffix);
        assert(seq![c] + (strip_from(s, i + 1) + ansi_strip(suffix)) =~= (seq![c] + strip_from(
            s,
            i + 1,
        )) + ansi_strip(suffix));
    }
}

/// Styling and then stripping the terminal escapes recovers exactly the
/// stripped text, for text that itself contains no escape character.
pub proof fn lemma_styled_roundtrip(s: Seq<char>)
    requires
        forall|j: int| 0 <= j < s.len() ==> s[j] != esc(),
    ensures
        ansi_strip(styled_spec(s)) == strip_spec(s),
{
    if has_sentinel(s) {
        lemma_roundtrip_from(s, 0, reset_chars());
        assert(reset_chars()[reset_chars().len() - 1] == 'm');
        lemma_ansi_strip_escape(reset_chars(), Seq::empty());
        assert(reset_chars() + Seq::<char>::empty() =~= reset_chars());
        assert(ansi_strip(Seq::<char>::empty()) == Seq::<char>::empty());
        assert(strip_spec(s) + Seq::<char>::empty() =~= strip_spec(s));
    } else {
        lemma_roundtrip_from(s, 0, Seq::empty());
        assert(styled_from(s, 0) + Seq::<char>::empty() =~= styled_from(s, 0));
        assert(strip_spec(s) + Seq::<char>::empty() =~= strip_spec(s));
    }
}

proof fn lemma_strip_plain_from(s: Seq<char>, i: nat)
    requires
        i <= s.len(),
        forall|j: int| 0 <= j < s.len() ==> s[j] != sentinel(),
    ensures
        strip_from(s, i) == s.subrange(i as int, s.len() as int),
    decreases s.len() - i,
{
    if i >= s.len() {
        assert(strip_from(s, i) =~= s.subrange(i as int, s.len() as int));
    } else {
        lemma_strip_plain_from(s, i + 1);
        assert(seq![s[i as int]] + s.subrange(i as int + 1, s.len() as int) =~= s.subrange(
            i as int,
            s.len() as int,
        ));
    }
}

/// Stripping leaves text without any sentinel exactly as it stands.
pub proof fn lemma_strip_plain_text(s: Seq<char>)
    requires
        !has_sentinel(s),
    ensures
        strip_spec(s) == s,
{
    lemma_strip_plain_from(s, 0);
    assert(s.subrange(0, s.len() as int) =~= s);
}

/// The marked-up text with every sentinel-and-code pair removed, for output
/// without styling.
pub fn remove_formatting(s: &str) -> (r: String)
    ensures
        r@ == strip_spec(s@),
{
    let n = s.unicode_len();
    let mut out = String::new();
    let mut i: usize = 0;
    proof {
        assert(Seq::<char>::empty() + strip_from(s@, 0) =~= strip_from(s@, 0));
    }
    while i < n
        invariant
            i <= n,
            n == s@.len(),
            out@ + strip_from(s@, i as nat) == strip_spec(s@),
        decreases n - i,
    {
        let c = s.get_char(i);
        if c == '\u{a7}' {
            if i + 1 < n {
                i = i + 2;
            } else {
                proof {
                    assert(out@ + Seq::<char>::empty() =~= out@);
                }
                i = n;
            }
        } else {
            let piece = s.substring_char(i, i + 1);
            proof {
                assert(piece@ =~= seq![s@[i as int]]);
                assert((out@ + seq![s@[i as int]]) + strip_from(s@, (i + 1) as nat) =~= out@
                    + (seq![s@[i as int]] + strip_from(s@, (i + 1) as nat)));
            }
            out.append(piece);
            i = i + 1;
        }
    }
    proof {
        assert(out@ + strip_from(s@, n as nat) =~= out@);
    }
    out
}

/// Marked-up text translated to a string holding ANSI escape sequences: each
/// colour or attribute code becomes the escape it selects, and a final reset
/// follows the text whenever any markup was present.
pub fn mc_formatted_to_ansi(s: &str) -> (r: String)
    ensures
        r@ == styled_spec(s@),
{
    let n = s.unicode_len();
    let mut out = String::new();
    let mut seen = false;
    let mut i: usize = 0;
    proof {
        assert(Seq::<char>::empty() + styled_from(s@, 0) =~= styled_from(s@, 0));
    }
    while i < n
        invariant
            i <= n,
            n == s@.len(),
            seen == has_sentinel_upto(s@, i as nat),
            out@ + styled_from(s@, i as nat) == styled_from(s@, 0),
        decreases n - i,
    {
        let c = s.get_char(i);
        if c == '\u{a7}' {
            seen = true;
            if i + 1 < n {
                let code = s.get_char(i + 1);
                proof {
                    let ghost prev = out@;
                    assert((prev + escape_of(code)) + styled_from(s@, (i + 2) as nat) =~= prev
                        + (escape_of(code) + styled_from(s@, (i + 2) as nat)));
                }
                emit_escape(code, &mut out);
                i = i + 2;
            } else {
                proof {
                    assert(out@ + Seq::<char>::empty() =~= out@);
                }
                i = i + 1;
            }
            proof {
                assert(has_sentinel_upto(s@, i as nat));
            }
        } else {
            let piece = s.substring_char(i, i + 1);
            proof {
                assert(piece@ =~= seq![s@[i as int]]);
                assert((out@ + seq![s@[i as int]]) + styled_from(s@, (i + 1) as nat) =~= out@
                    + (seq![s@[i as int]] + styled_from(s@, (i + 1) as nat)));
            }
            out.append(piece);
            proof {
                assert(has_sentinel_upto(s@, (i + 1) as nat) == has_sentinel_upto(
                    s@,
                    i as nat,
                ));
            }
            i = i + 1;
        }
    }
    proof {
        assert(out@ + styled_from(s@, n as nat) =~= out@);
        assert(has_sentinel_upto(s@, n as nat) == has_sentinel(s@));
    }
    if seen {
        let e = reset_escape();
        out.append(e.as_str());
    } else {
        proof {
            assert(out@ + Seq::<char>::empty() =~= out@);
        }
    }
    out
}

} // verus!
