//! The colours and attributes of drawn text, and the escape codes that set them.
use vstd::prelude::*;
use vstd::string::*;

use crate::terminal::cell;
use crate::terminal::cell::{
    flag_set, CellColor, FLAG_BOLD, FLAG_DIM, FLAG_HIDDEN, FLAG_INVERSE, FLAG_ITALIC,
    FLAG_STRIKEOUT, FLAG_UNDERLINE,
};
use crate::text;
use crate::text::push_decimal;

verus! {

/// A colour of drawn text.
#[derive(Clone, Copy, Debug, PartialEq, Eq, Structural)]
pub enum Color {
    /// Whatever the host terminal draws by default.
    Reset,
    /// An entry of the 256-colour palette.
    Indexed(u8),
    /// A colour in red, green and blue.
    Rgb(u8, u8, u8),
}

/// The attributes of drawn text.
#[derive(Clone, Copy, Debug, PartialEq, Eq, Structural)]
pub struct Modifier {
    pub bold: bool,
    pub dim: bool,
    pub italic: bool,
    pub underlined: bool,
    pub reversed: bool,
    pub hidden: bool,
    pub crossed_out: bool,
}

/// The style of one drawn cell.
#[derive(Clone, Copy, Debug, PartialEq, Eq, Structural)]
pub struct RenderCell {
    pub fg: Color,
    pub bg: Color,
    pub mods: Modifier,
}

/// No attribute at all.
pub open spec fn no_modifier() -> Modifier {
    Modifier {
        bold: false,
        dim: false,
        italic: false,
        underlined: false,
        reversed: false,
        hidden: false,
        crossed_out: false,
    }
}

/// The style of plain text.
pub open spec fn plain_style() -> RenderCell {
    RenderCell { fg: Color::Reset, bg: Color::Reset, mods: no_modifier() }
}

/// The drawn colour of a cell colour. The first sixteen named colours are the
/// ANSI palette; every other name is the default of the host terminal.
pub open spec fn mapped_color(c: CellColor) -> Color {
    match c {
        CellColor::Spec(r, g, b) => Color::Rgb(r, g, b),
        CellColor::Indexed(i) => Color::Indexed(i),
        CellColor::Named(n) => if n < 16 {
            Color::Indexed(n as u8)
        } else {
            Color::Reset
        },
    }
}

/// The drawn attributes of the cell flags.
pub open spec fn mapped_flags(flags: u16) -> Modifier {
    Modifier {
        bold: cell::has_flag(flags, FLAG_BOLD),
        dim: cell::has_flag(flags, FLAG_DIM),
        italic: cell::has_flag(flags, FLAG_ITALIC),
        underlined: cell::has_flag(flags, FLAG_UNDERLINE),
        reversed: cell::has_flag(flags, FLAG_INVERSE),
        hidden: cell::has_flag(flags, FLAG_HIDDEN),
        crossed_out: cell::has_flag(flags, FLAG_STRIKEOUT),
    }
}

/// The drawn style of a cell.
pub open spec fn mapped_style(fg: CellColor, bg: CellColor, flags: u16) -> RenderCell {
    RenderCell { fg: mapped_color(fg), bg: mapped_color(bg), mods: mapped_flags(flags) }
}

/// The parameters that select a colour: `38` for the foreground, `48` for the
/// background, then the palette entry or the three components.
pub open spec fn color_code(c: Color, base: nat) -> Seq<char> {
    match c {
        Color::Reset => Seq::<char>::empty(),
        Color::Indexed(i) => seq![';'] + text::decimal_text(base) + seq![';', '5', ';'] + text::decimal_text(
            i as nat,
        ),
        Color::Rgb(r, g, b) => seq![';'] + text::decimal_text(base) + seq![';', '2', ';'] + text::decimal_text(
            r as nat,
        ) + seq![';'] + text::decimal_text(g as nat) + seq![';'] + text::decimal_text(b as nat),
    }
}

/// The parameter of one attribute, where it is on.
pub open spec fn attribute_code(on: bool, digit: char) -> Seq<char> {
    if on {
        seq![';', digit]
    } else {
        Seq::<char>::empty()
    }
}

/// The escape sequence that resets the style and then selects this one.
pub open spec fn sgr_code(style: RenderCell) -> Seq<char> {
    seq!['\u{1b}', '[', '0'] + attribute_code(style.mods.bold, '1') + attribute_code(
        style.mods.dim,
        '2',
    ) + attribute_code(style.mods.italic, '3') + attribute_code(style.mods.underlined, '4')
        + attribute_code(style.mods.reversed, '7') + color_code(style.fg, 38) + color_code(
        style.bg,
        48,
    ) + seq!['m']
}

/// The escape sequence that resets the style.
pub open spec fn reset_code() -> Seq<char> {
    seq!['\u{1b}', '[', '0', 'm']
}

// ---------------------------------------------------------------------------
// Reading a sequence that selects a style
// ---------------------------------------------------------------------------

/// The numbers of a text of digits and semicolons. Without digits a number is zero.
pub open spec fn numbers(s: Seq<char>) -> Seq<nat>
    decreases s.len(),
{
    if s.len() == 0 {
        seq![0nat]
    } else {
        let before = numbers(s.drop_last());
        if s.last() == ';' {
            before.push(0)
        } else {
            before.drop_last().push((before.last() * 10 + (s.last() as int - '0' as int)) as nat)
        }
    }
}

/// The colour that the numbers behind a `38` or `48` stand for: `5` and an entry of
/// the palette, or `2` and the three components.
pub open spec fn read_color(p: Seq<nat>) -> Option<(Color, int)> {
    if p.len() >= 2 && p[0] == 5 && p[1] < 256 {
        Some((Color::Indexed(p[1] as u8), 2))
    } else if p.len() >= 4 && p[0] == 2 && p[1] < 256 && p[2] < 256 && p[3] < 256 {
        Some((Color::Rgb(p[1] as u8, p[2] as u8, p[3] as u8), 4))
    } else {
        None
    }
}

/// What a terminal makes of the parameters of a sequence that selects a style, one
/// after another: `0` resets everything, `1`, `2`, `3`, `4` and `7` turn an
/// attribute on, `38` sets the foreground and `48` the background.
pub open spec fn selected(style: RenderCell, p: Seq<nat>) -> RenderCell
    decreases p.len(),
{
    if p.len() == 0 {
        style
    } else {
        let rest = p.skip(1);
        let m = style.mods;
        if p[0] == 0 {
            selected(plain_style(), rest)
        } else if p[0] == 1 {
            selected(RenderCell { mods: Modifier { bold: true, ..m }, ..style }, rest)
        } else if p[0] == 2 {
            selected(RenderCell { mods: Modifier { dim: true, ..m }, ..style }, rest)
        } else if p[0] == 3 {
            selected(RenderCell { mods: Modifier { italic: true, ..m }, ..style }, rest)
        } else if p[0] == 4 {
            selected(RenderCell { mods: Modifier { underlined: true, ..m }, ..style }, rest)
        } else if p[0] == 7 {
            selected(RenderCell { mods: Modifier { reversed: true, ..m }, ..style }, rest)
        } else if p[0] == 38 || p[0] == 48 {
            match read_color(rest) {
                Some((c, n)) => selected(
                    if p[0] == 38 {
                        RenderCell { fg: c, ..style }
                    } else {
                        RenderCell { bg: c, ..style }
                    },
                    if 0 <= n <= rest.len() {
                        rest.skip(n)
                    } else {
                        Seq::<nat>::empty()
                    },
                ),
                None => style,
            }
        } else {
            selected(style, rest)
        }
    }
}

/// Whether the text is one sequence that selects a style: `ESC [`, digits and
/// semicolons, and `m`.
pub open spec fn is_selection(s: Seq<char>) -> bool {
    &&& s.len() >= 3
    &&& s[0] == '\u{1b}'
    &&& s[1] == '['
    &&& s.last() == 'm'
    &&& forall|i: int| 2 <= i < s.len() - 1 ==> '0' <= #[trigger] s[i] <= '9' || s[i] == ';'
}

/// The style of a terminal that reads the sequence.
pub open spec fn style_after(style: RenderCell, code: Seq<char>) -> RenderCell {
    selected(style, numbers(code.subrange(2, code.len() - 1)))
}

/// A style as far as the sequences tell of it: all but hidden and crossed-out text.
pub open spec fn told_style(style: RenderCell) -> RenderCell {
    RenderCell {
        mods: Modifier { hidden: false, crossed_out: false, ..style.mods },
        ..style
    }
}

proof fn lemma_numbers_len(s: Seq<char>)
    ensures
        numbers(s).len() >= 1,
    decreases s.len(),
{
    if s.len() > 0 {
        lemma_numbers_len(s.drop_last());
    }
}

proof fn lemma_numbers_parts(a: Seq<char>, b: Seq<char>)
    ensures
        numbers(a + seq![';'] + b) == numbers(a) + numbers(b),
    decreases b.len(),
{
    let s = a + seq![';'] + b;
    lemma_numbers_len(a);
    lemma_numbers_len(b);
    if b.len() == 0 {
        assert(s.drop_last() =~= a);
        assert(numbers(a).push(0) =~= numbers(a) + numbers(b));
    } else {
        let r = b.drop_last();
        lemma_numbers_parts(a, r);
        lemma_numbers_len(r);
        assert(s.drop_last() =~= a + seq![';'] + r);
        assert(s.last() == b.last());
        let all = numbers(a) + numbers(r);
        assert(all.last() == numbers(r).last());
        assert(all.drop_last() =~= numbers(a) + numbers(r).drop_last());
        assert(numbers(s) =~= numbers(a) + numbers(b));
    }
}

proof fn lemma_numbers_of_decimal(n: nat)
    ensures
        numbers(text::decimal_text(n)) == seq![n],
    decreases n,
{
    let t = text::decimal_text(n);
    if n < 10 {
        assert(t.drop_last() =~= Seq::<char>::empty());
        assert(numbers(t.drop_last()) == seq![0nat]);
        assert(numbers(t) =~= seq![n]);
    } else {
        lemma_numbers_of_decimal(n / 10);
        assert(t.drop_last() =~= text::decimal_text(n / 10));
        assert(numbers(t) =~= seq![n]);
    }
}

/// The numbers of a list of numbers, each behind a semicolon.
proof fn lemma_numbers_behind(a: Seq<char>, t: Seq<char>)
    ensures
        numbers(a + (seq![';'] + t)) == numbers(a) + numbers(t),
{
    assert(a + (seq![';'] + t) =~= a + seq![';'] + t);
    lemma_numbers_parts(a, t);
}

spec fn attribute_numbers(on: bool, n: nat) -> Seq<nat> {
    if on {
        seq![n]
    } else {
        Seq::<nat>::empty()
    }
}

spec fn color_numbers(c: Color, base: nat) -> Seq<nat> {
    match c {
        Color::Reset => Seq::<nat>::empty(),
        Color::Indexed(i) => seq![base, 5, i as nat],
        Color::Rgb(r, g, b) => seq![base, 2, r as nat, g as nat, b as nat],
    }
}

proof fn lemma_one_digit(c: char)
    requires
        '0' <= c <= '9',
    ensures
        numbers(seq![c]) == seq![(c as int - '0' as int) as nat],
{
    assert(seq![c].drop_last() =~= Seq::<char>::empty());
    assert(numbers(seq![c].drop_last()) == seq![0nat]);
    assert(numbers(seq![c]) =~= seq![(c as int - '0' as int) as nat]);
}

proof fn lemma_attribute_numbers(a: Seq<char>, on: bool, digit: char)
    requires
        '0' <= digit <= '9',
    ensures
        numbers(a + attribute_code(on, digit)) == numbers(a) + attribute_numbers(
            on,
            (digit as int - '0' as int) as nat,
        ),
{
    if on {
        assert(attribute_code(on, digit) =~= seq![';'] + seq![digit]);
        lemma_numbers_behind(a, seq![digit]);
        lemma_one_digit(digit);
    } else {
        assert(a + attribute_code(on, digit) =~= a);
        assert(numbers(a) + Seq::<nat>::empty() =~= numbers(a));
    }
}

proof fn lemma_color_numbers(a: Seq<char>, c: Color, base: nat)
    ensures
        numbers(a + color_code(c, base)) == numbers(a) + color_numbers(c, base),
{
    let sep = seq![';'];
    let d = text::decimal_text(base);
    lemma_numbers_of_decimal(base);
    match c {
        Color::Reset => {
            assert(a + color_code(c, base) =~= a);
            assert(numbers(a) + Seq::<nat>::empty() =~= numbers(a));
        },
        Color::Indexed(i) => {
            let t = text::decimal_text(i as nat);
            lemma_numbers_of_decimal(i as nat);
            lemma_one_digit('5');
            let a1 = a + (sep + d);
            let a2 = a1 + (sep + seq!['5']);
            let a3 = a2 + (sep + t);
            lemma_numbers_behind(a, d);
            lemma_numbers_behind(a1, seq!['5']);
            lemma_numbers_behind(a2, t);
            assert(a3 =~= a + color_code(c, base));
            assert(numbers(a3) =~= numbers(a) + color_numbers(c, base));
        },
        Color::Rgb(r, g, b) => {
            let (tr, tg, tb) = (
                text::decimal_text(r as nat),
                text::decimal_text(g as nat),
                text::decimal_text(b as nat),
            );
            lemma_numbers_of_decimal(r as nat);
            lemma_numbers_of_decimal(g as nat);
            lemma_numbers_of_decimal(b as nat);
            lemma_one_digit('2');
            let a1 = a + (sep + d);
            let a2 = a1 + (sep + seq!['2']);
            let a3 = a2 + (sep + tr);
            let a4 = a3 + (sep + tg);
            let a5 = a4 + (sep + tb);
            lemma_numbers_behind(a, d);
            lemma_numbers_behind(a1, seq!['2']);
            lemma_numbers_behind(a2, tr);
            lemma_numbers_behind(a3, tg);
            lemma_numbers_behind(a4, tb);
            assert(a5 =~= a + color_code(c, base));
            assert(numbers(a5) =~= numbers(a) + color_numbers(c, base));
        },
    }
}

proof fn lemma_select_attribute(style: RenderCell, on: bool, n: nat, rest: Seq<nat>)
    requires
        n < 10,
    ensures
        selected(style, attribute_numbers(on, n) + rest) == (if on {
            selected(selected(style, seq![n]), rest)
        } else {
            selected(style, rest)
        }),
{
    let p = attribute_numbers(on, n) + rest;
    reveal_with_fuel(selected, 2);
    if on {
        assert(p.skip(1) =~= rest);
        assert(seq![n].skip(1) =~= Seq::<nat>::empty());
    } else {
        assert(p =~= rest);
    }
}

proof fn lemma_select_color(style: RenderCell, c: Color, base: nat, rest: Seq<nat>)
    requires
        base == 38 || base == 48,
    ensures
        selected(style, color_numbers(c, base) + rest) == selected(
            match c {
                Color::Reset => style,
                _ => if base == 38 {
                    RenderCell { fg: c, ..style }
                } else {
                    RenderCell { bg: c, ..style }
                },
            },
            rest,
        ),
{
    let p = color_numbers(c, base) + rest;
    match c {
        Color::Reset => {
            assert(p =~= rest);
        },
        Color::Indexed(i) => {
            assert(p.skip(1).skip(2) =~= rest);
        },
        Color::Rgb(r, g, b) => {
            assert(p.skip(1).skip(4) =~= rest);
        },
    }
}

proof fn lemma_digits_of_decimal(n: nat)
    ensures
        forall|i: int|
            0 <= i < text::decimal_text(n).len() ==> '0' <= #[trigger] text::decimal_text(n)[i]
                <= '9',
    decreases n,
{
    if n >= 10 {
        lemma_digits_of_decimal(n / 10);
        let t = text::decimal_text(n);
        let b = text::decimal_text(n / 10);
        assert forall|i: int| 0 <= i < t.len() implies '0' <= #[trigger] t[i] <= '9' by {
            if i < b.len() {
                assert(t[i] == b[i]);
            }
        }
    }
}

/// Whether the text is made of digits and semicolons.
spec fn all_params(s: Seq<char>) -> bool {
    forall|i: int| 0 <= i < s.len() ==> '0' <= #[trigger] s[i] <= '9' || s[i] == ';'
}

proof fn lemma_params_join(a: Seq<char>, b: Seq<char>)
    requires
        all_params(a),
        all_params(b),
    ensures
        all_params(a + b),
{
}

proof fn lemma_color_params(c: Color, base: nat)
    ensures
        all_params(color_code(c, base)),
{
    lemma_digits_of_decimal(base);
    match c {
        Color::Reset => {},
        Color::Indexed(i) => {
            lemma_digits_of_decimal(i as nat);
        },
        Color::Rgb(r, g, b) => {
            lemma_digits_of_decimal(r as nat);
            lemma_digits_of_decimal(g as nat);
            lemma_digits_of_decimal(b as nat);
        },
    }
}

/// What stands between the start and the end of the sequence of a style.
spec fn sgr_params(style: RenderCell) -> Seq<char> {
    let m = style.mods;
    seq!['0'] + attribute_code(m.bold, '1') + attribute_code(m.dim, '2') + attribute_code(
        m.italic,
        '3',
    ) + attribute_code(m.underlined, '4') + attribute_code(m.reversed, '7') + color_code(
        style.fg,
        38,
    ) + color_code(style.bg, 48)
}

proof fn lemma_behind(open: Seq<char>, a: Seq<char>, b: Seq<char>)
    ensures
        open + a + b == open + (a + b),
{
    assert(open + a + b =~= open + (a + b));
}

proof fn lemma_sgr_params(style: RenderCell)
    ensures
        is_selection(sgr_code(style)),
        sgr_code(style).subrange(2, sgr_code(style).len() - 1) == sgr_params(style),
{
    let m = style.mods;
    let open = seq!['\u{1b}', '['];
    let s0 = seq!['0'];
    let s1 = s0 + attribute_code(m.bold, '1');
    let s2 = s1 + attribute_code(m.dim, '2');
    let s3 = s2 + attribute_code(m.italic, '3');
    let s4 = s3 + attribute_code(m.underlined, '4');
    let s5 = s4 + attribute_code(m.reversed, '7');
    let s6 = s5 + color_code(style.fg, 38);
    let s7 = s6 + color_code(style.bg, 48);
    assert(open + s0 =~= seq!['\u{1b}', '[', '0']);
    lemma_behind(open, s0, attribute_code(m.bold, '1'));
    lemma_behind(open, s1, attribute_code(m.dim, '2'));
    lemma_behind(open, s2, attribute_code(m.italic, '3'));
    lemma_behind(open, s3, attribute_code(m.underlined, '4'));
    lemma_behind(open, s4, attribute_code(m.reversed, '7'));
    lemma_behind(open, s5, color_code(style.fg, 38));
    lemma_behind(open, s6, color_code(style.bg, 48));
    lemma_color_params(style.fg, 38);
    lemma_color_params(style.bg, 48);
    lemma_params_join(s0, attribute_code(m.bold, '1'));
    lemma_params_join(s1, attribute_code(m.dim, '2'));
    lemma_params_join(s2, attribute_code(m.italic, '3'));
    lemma_params_join(s3, attribute_code(m.underlined, '4'));
    lemma_params_join(s4, attribute_code(m.reversed, '7'));
    lemma_params_join(s5, color_code(style.fg, 38));
    lemma_params_join(s6, color_code(style.bg, 48));
    assert(sgr_code(style) == open + s7 + seq!['m']);
    lemma_framed(s7);
}

proof fn lemma_framed(params: Seq<char>)
    requires
        all_params(params),
    ensures
        is_selection(seq!['\u{1b}', '['] + params + seq!['m']),
        ({
            let code = seq!['\u{1b}', '['] + params + seq!['m'];
            code.subrange(2, code.len() - 1) == params
        }),
{
    let code = seq!['\u{1b}', '['] + params + seq!['m'];
    assert(code.subrange(2, code.len() - 1) =~= params);
    assert forall|i: int| 2 <= i < code.len() - 1 implies '0' <= #[trigger] code[i] <= '9'
        || code[i] == ';' by {
        assert(code[i] == params[i - 2]);
    }
}

spec fn sgr_numbers(style: RenderCell) -> Seq<nat> {
    let m = style.mods;
    seq![0nat] + attribute_numbers(m.bold, 1) + attribute_numbers(m.dim, 2) + attribute_numbers(
        m.italic,
        3,
    ) + attribute_numbers(m.underlined, 4) + attribute_numbers(m.reversed, 7) + color_numbers(
        style.fg,
        38,
    ) + color_numbers(style.bg, 48)
}

proof fn lemma_sgr_numbers(style: RenderCell)
    ensures
        numbers(sgr_params(style)) == sgr_numbers(style),
{
    let m = style.mods;
    let s0 = seq!['0'];
    let s1 = s0 + attribute_code(m.bold, '1');
    let s2 = s1 + attribute_code(m.dim, '2');
    let s3 = s2 + attribute_code(m.italic, '3');
    let s4 = s3 + attribute_code(m.underlined, '4');
    let s5 = s4 + attribute_code(m.reversed, '7');
    let s6 = s5 + color_code(style.fg, 38);
    lemma_one_digit('0');
    lemma_attribute_numbers(s0, m.bold, '1');
    lemma_attribute_numbers(s1, m.dim, '2');
    lemma_attribute_numbers(s2, m.italic, '3');
    lemma_attribute_numbers(s3, m.underlined, '4');
    lemma_attribute_numbers(s4, m.reversed, '7');
    lemma_color_numbers(s5, style.fg, 38);
    lemma_color_numbers(s6, style.bg, 48);
}

proof fn lemma_join(a: Seq<nat>, b: Seq<nat>, c: Seq<nat>)
    ensures
        a + b + c == a + (b + c),
{
    assert(a + b + c =~= a + (b + c));
}

proof fn lemma_select_all(style: RenderCell, before: RenderCell)
    ensures
        selected(before, sgr_numbers(style)) == told_style(style),
{
    let m = style.mods;
    let none = Seq::<nat>::empty();
    let zero = seq![0nat];
    let (n1, n2, n3, n4, n5, n6, n7) = (
        attribute_numbers(m.bold, 1),
        attribute_numbers(m.dim, 2),
        attribute_numbers(m.italic, 3),
        attribute_numbers(m.underlined, 4),
        attribute_numbers(m.reversed, 7),
        color_numbers(style.fg, 38),
        color_numbers(style.bg, 48),
    );
    let p7 = n7 + none;
    let p6 = n6 + p7;
    let p5 = n5 + p6;
    let p4 = n4 + p5;
    let p3 = n3 + p4;
    let p2 = n2 + p3;
    let p1 = n1 + p2;
    let q1 = zero + n1;
    let q2 = q1 + n2;
    let q3 = q2 + n3;
    let q4 = q3 + n4;
    let q5 = q4 + n5;
    let q6 = q5 + n6;
    assert(q6 + n7 + none =~= q6 + n7);
    lemma_join(q6, n7, none);
    lemma_join(q5, n6, p7);
    lemma_join(q4, n5, p6);
    lemma_join(q3, n4, p5);
    lemma_join(q2, n3, p4);
    lemma_join(q1, n2, p3);
    lemma_join(zero, n1, p2);
    let p0 = zero + p1;
    assert(sgr_numbers(style) == p0);
    assert(p0.skip(1) =~= p1);
    assert(selected(before, p0) == selected(plain_style(), p1));
    let a0 = plain_style();
    let a1 = RenderCell { mods: Modifier { bold: m.bold, ..a0.mods }, ..a0 };
    let a2 = RenderCell { mods: Modifier { dim: m.dim, ..a1.mods }, ..a1 };
    let a3 = RenderCell { mods: Modifier { italic: m.italic, ..a2.mods }, ..a2 };
    let a4 = RenderCell { mods: Modifier { underlined: m.underlined, ..a3.mods }, ..a3 };
    let a5 = RenderCell { mods: Modifier { reversed: m.reversed, ..a4.mods }, ..a4 };
    let a6 = RenderCell { fg: style.fg, ..a5 };
    let a7 = RenderCell { bg: style.bg, ..a6 };
    assert(selected(a0, p1) == selected(a1, p2)) by {
        lemma_select_attribute(a0, m.bold, 1, p2);
        lemma_select_one(a0, 1);
    }
    assert(selected(a1, p2) == selected(a2, p3)) by {
        lemma_select_attribute(a1, m.dim, 2, p3);
        lemma_select_one(a1, 2);
    }
    assert(selected(a2, p3) == selected(a3, p4)) by {
        lemma_select_attribute(a2, m.italic, 3, p4);
        lemma_select_one(a2, 3);
    }
    assert(selected(a3, p4) == selected(a4, p5)) by {
        lemma_select_attribute(a3, m.underlined, 4, p5);
        lemma_select_one(a3, 4);
    }
    assert(selected(a4, p5) == selected(a5, p6)) by {
        lemma_select_attribute(a4, m.reversed, 7, p6);
        lemma_select_one(a4, 7);
    }
    assert(selected(a5, p6) == selected(a6, p7)) by {
        lemma_select_color(a5, style.fg, 38, p7);
    }
    assert(selected(a6, p7) == selected(a7, none)) by {
        lemma_select_color(a6, style.bg, 48, none);
    }
}

/// Reading the sequence of a style selects that style, whatever was selected
/// before: the same foreground, the same background, and the same attributes but
/// for hidden and crossed-out text.
pub proof fn law_sequences_select_their_style(style: RenderCell, before: RenderCell)
    ensures
        is_selection(sgr_code(style)),
        style_after(before, sgr_code(style)) == told_style(style),
{
    lemma_sgr_params(style);
    lemma_sgr_numbers(style);
    lemma_select_all(style, before);
}

proof fn lemma_select_one(style: RenderCell, n: nat)
    requires
        n == 1 || n == 2 || n == 3 || n == 4 || n == 7,
    ensures
        selected(style, seq![n]) == (RenderCell {
            mods: Modifier {
                bold: style.mods.bold || n == 1,
                dim: style.mods.dim || n == 2,
                italic: style.mods.italic || n == 3,
                underlined: style.mods.underlined || n == 4,
                reversed: style.mods.reversed || n == 7,
                ..style.mods
            },
            ..style
        }),
{
    reveal_with_fuel(selected, 2);
    assert(seq![n].skip(1) =~= Seq::<nat>::empty());
}

/// The sequence that resets the style selects the plain one.
pub proof fn law_resets_select_the_plain_style(before: RenderCell)
    ensures
        is_selection(reset_code()),
        style_after(before, reset_code()) == plain_style(),
{
    reveal_with_fuel(selected, 2);
    let code = reset_code();
    assert(code.subrange(2, 3) =~= seq!['0']);
    lemma_one_digit('0');
    assert(seq![0nat].skip(1) =~= Seq::<nat>::empty());
}

/// Two styles have the same sequence only where they have the same colours and the
/// same attributes, but for hidden and crossed-out text.
pub proof fn law_sequences_tell_styles_apart(a: RenderCell, b: RenderCell)
    ensures
        sgr_code(a) == sgr_code(b) <==> told_style(a) == told_style(b),
{
    law_sequences_select_their_style(a, plain_style());
    law_sequences_select_their_style(b, plain_style());
}

/// A cell is drawn in the colours that it holds: those of the palette and those in
/// red, green and blue as they are, the sixteen named ones as the first entries of
/// the palette, and in the default of the host terminal otherwise.
pub proof fn law_cells_keep_their_colors(n: u16, i: u8, r: u8, g: u8, b: u8)
    ensures
        mapped_color(CellColor::Indexed(i)) == Color::Indexed(i),
        mapped_color(CellColor::Spec(r, g, b)) == Color::Rgb(r, g, b),
        i < 16 ==> mapped_color(CellColor::Named(i as u16)) == mapped_color(CellColor::Indexed(i)),
        n >= 16 ==> mapped_color(CellColor::Named(n)) == Color::Reset,
{
}

/// A cell is drawn with the attributes whose bits it holds, and with no others.
pub proof fn law_cells_keep_their_attributes(flags: u16)
    ensures
        mapped_flags(flags).reversed <==> flags & 0x1 != 0,
        mapped_flags(flags).bold <==> flags & 0x2 != 0,
        mapped_flags(flags).italic <==> flags & 0x4 != 0,
        mapped_flags(flags).underlined <==> flags & 0x8 != 0,
        mapped_flags(flags).dim <==> flags & 0x80 != 0,
        mapped_flags(flags).hidden <==> flags & 0x100 != 0,
        mapped_flags(flags).crossed_out <==> flags & 0x200 != 0,
{
    assert(flags & 0x1 == 0x1 <==> flags & 0x1 != 0) by (bit_vector);
    assert(flags & 0x2 == 0x2 <==> flags & 0x2 != 0) by (bit_vector);
    assert(flags & 0x4 == 0x4 <==> flags & 0x4 != 0) by (bit_vector);
    assert(flags & 0x8 == 0x8 <==> flags & 0x8 != 0) by (bit_vector);
    assert(flags & 0x80 == 0x80 <==> flags & 0x80 != 0) by (bit_vector);
    assert(flags & 0x100 == 0x100 <==> flags & 0x100 != 0) by (bit_vector);
    assert(flags & 0x200 == 0x200 <==> flags & 0x200 != 0) by (bit_vector);
}

/// The style of plain text.
pub fn plain() -> (r: RenderCell)
    ensures
        r == plain_style(),
{
    RenderCell {
        fg: Color::Reset,
        bg: Color::Reset,
        mods: Modifier {
            bold: false,
            dim: false,
            italic: false,
            underlined: false,
            reversed: false,
            hidden: false,
            crossed_out: false,
        },
    }
}

/// The drawn colour of a cell colour.
pub fn map_color(c: CellColor) -> (r: Color)
    ensures
        r == mapped_color(c),
{
    match c {
        CellColor::Spec(r, g, b) => Color::Rgb(r, g, b),
        CellColor::Indexed(i) => Color::Indexed(i),
        CellColor::Named(n) => {
            if n < 16 {
                Color::Indexed(n as u8)
            } else {
                Color::Reset
            }
        },
    }
}

/// The drawn attributes of the cell flags.
pub fn map_flags(flags: u16) -> (r: Modifier)
    ensures
        r == mapped_flags(flags),
{
    Modifier {
        bold: flag_set(flags, FLAG_BOLD),
        dim: flag_set(flags, FLAG_DIM),
        italic: flag_set(flags, FLAG_ITALIC),
        underlined: flag_set(flags, FLAG_UNDERLINE),
        reversed: flag_set(flags, FLAG_INVERSE),
        hidden: flag_set(flags, FLAG_HIDDEN),
        crossed_out: flag_set(flags, FLAG_STRIKEOUT),
    }
}

/// Appends the parameters that select a colour.
pub fn push_color(s: &mut String, c: Color, base: u8)
    ensures
        final(s)@ == old(s)@ + color_code(c, base as nat),
{
    match c {
        Color::Reset => {
            assert(s@ =~= old(s)@ + color_code(c, base as nat));
        },
        Color::Indexed(i) => {
            s.push(';');
            push_decimal(s, base as usize);
            s.push(';');
            s.push('5');
            s.push(';');
            push_decimal(s, i as usize);
            assert(s@ =~= old(s)@ + color_code(c, base as nat));
        },
        Color::Rgb(r, g, b) => {
            s.push(';');
            push_decimal(s, base as usize);
            s.push(';');
            s.push('2');
            s.push(';');
            push_decimal(s, r as usize);
            s.push(';');
            push_decimal(s, g as usize);
            s.push(';');
            push_decimal(s, b as usize);
            assert(s@ =~= old(s)@ + color_code(c, base as nat));
        },
    }
}

fn push_attribute(s: &mut String, on: bool, digit: char)
    ensures
        final(s)@ == old(s)@ + attribute_code(on, digit),
{
    if on {
        s.push(';');
        s.push(digit);
    }
    assert(s@ =~= old(s)@ + attribute_code(on, digit));
}

/// The escape sequence that resets the style and then selects this one.
pub fn sgr(fg: Color, bg: Color, m: Modifier) -> (s: String)
    ensures
        s@ == sgr_code(RenderCell { fg, bg, mods: m }),
        is_selection(s@),
        forall|before: RenderCell| #[trigger]
            style_after(before, s@) == told_style(RenderCell { fg, bg, mods: m }),
{
    let mut s = String::new();
    s.push('\u{1b}');
    s.push('[');
    s.push('0');
    assert(s@ =~= seq!['\u{1b}', '[', '0']);
    push_attribute(&mut s, m.bold, '1');
    push_attribute(&mut s, m.dim, '2');
    push_attribute(&mut s, m.italic, '3');
    push_attribute(&mut s, m.underlined, '4');
    push_attribute(&mut s, m.reversed, '7');
    push_color(&mut s, fg, 38);
    push_color(&mut s, bg, 48);
    s.push('m');
    assert(s@ =~= sgr_code(RenderCell { fg, bg, mods: m }));
    proof {
        let style = RenderCell { fg, bg, mods: m };
        law_sequences_select_their_style(style, style);
        assert forall|before: RenderCell| #[trigger] style_after(before, s@) == told_style(
            style,
        ) by {
            law_sequences_select_their_style(style, before);
        }
    }
    s
}

/// Appends the escape sequence that resets the style.
pub fn push_reset(s: &mut String)
    ensures
        final(s)@ == old(s)@ + reset_code(),
{
    s.push('\u{1b}');
    s.push('[');
    s.push('0');
    s.push('m');
    assert(s@ =~= old(s)@ + reset_code());
}

} // verus!
