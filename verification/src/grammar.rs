//! The template grammar. A template is a header of 22 characters (the shape,
//! three colours of six hexadecimal digits each, and a flag) followed by the
//! display lines. Each line is a sequence of fragments, read greedily from
//! left to right; a line that is empty or not wholly made of fragments makes
//! the template malformed.

use vstd::prelude::*;
use vstd::string::*;
use crate::spec::{
    Decimal, DecimalView, DefaultValue, DefaultValueView, DropdownOption, DropdownOptionView,
    Fragment, FragmentView, Shape, Spec, SpecView, clone_options, line_view, lines_view,
    options_view,
};
use crate::util::{
    char_is_alphanum,
    char_is_digit,
    char_is_hex_digit,
    chars_of,
    hex_digit_of,
    hex_value,
    is_alphanum,
    is_digit,
    is_hex_digit,
    rgb_of_bits,
};

verus! {

/// The kinds of character runs that the grammar reads.
#[derive(Clone, Copy, PartialEq, Eq, Structural, Debug)]
pub enum Run {
    /// Letters, digits and `_`: a name.
    Name,
    /// Decimal digits.
    Digits,
    /// Anything but an opening bracket: literal text.
    Text,
    /// Anything but a backtick: the inside of a quoted string.
    Quoted,
}

/// Whether a run of kind `run` may hold `c`.
pub open spec fn in_run(run: Run, c: char) -> bool {
    match run {
        Run::Name => is_alphanum(c) || c == '_',
        Run::Digits => is_digit(c),
        Run::Text => c != '(' && c != '<' && c != '{' && c != '[',
        Run::Quoted => c != '`',
    }
}

/// Where the longest run of kind `run` that starts at `pos` ends.
pub open spec fn scan(s: Seq<char>, pos: int, run: Run) -> int
    decreases s.len() - pos,
{
    if 0 <= pos < s.len() && in_run(run, s[pos]) {
        scan(s, pos + 1, run)
    } else {
        pos
    }
}

/// Whether `s` holds the character `c` at `pos`.
pub open spec fn holds(s: Seq<char>, pos: int, c: char) -> bool {
    0 <= pos < s.len() && s[pos] == c
}

/// Whether `s` holds `word` from `pos` on.
pub open spec fn starts_with(s: Seq<char>, pos: int, word: Seq<char>) -> bool {
    0 <= pos && pos + word.len() <= s.len() && s.subrange(pos, pos + word.len()) == word
}

/// A name: one or more letters, digits and `_`.
pub open spec fn parse_id(s: Seq<char>, pos: int) -> Option<(Seq<char>, int)> {
    let end = scan(s, pos, Run::Name);
    if 0 <= pos < end <= s.len() {
        Some((s.subrange(pos, end), end))
    } else {
        None
    }
}

/// A quoted string: what stands between two backticks.
pub open spec fn parse_string(s: Seq<char>, pos: int) -> Option<(Seq<char>, int)> {
    if holds(s, pos, '`') {
        let end = scan(s, pos + 1, Run::Quoted);
        if holds(s, end, '`') {
            Some((s.subrange(pos + 1, end), end + 1))
        } else {
            None
        }
    } else {
        None
    }
}

/// A number: an optional `-`, digits, a point and digits.
pub open spec fn parse_number(s: Seq<char>, pos: int) -> Option<(DecimalView, int)> {
    let start = if holds(s, pos, '-') {
        pos + 1
    } else {
        pos
    };
    let point = scan(s, start, Run::Digits);
    let end = scan(s, point + 1, Run::Digits);
    if 0 <= pos && start < point && holds(s, point, '.') && point + 1 < end <= s.len() {
        Some(
            (
                DecimalView {
                    negative: holds(s, pos, '-'),
                    whole: s.subrange(start, point),
                    fraction: s.subrange(point + 1, end),
                },
                end,
            ),
        )
    } else {
        None
    }
}

/// Whether six hexadecimal digits stand at `pos`.
pub open spec fn hex6_at(s: Seq<char>, pos: int) -> bool {
    0 <= pos && pos + 6 <= s.len() && forall|i: int|
        pos <= i < pos + 6 ==> is_hex_digit(#[trigger] s[i])
}

/// The colour that the six hexadecimal digits at `pos` write.
pub open spec fn hex6_color(s: Seq<char>, pos: int) -> (u8, u8, u8) {
    rgb_of_bits(hex_value(s.subrange(pos, pos + 6)))
}

/// The number that stands for `@`: a zero that is not shown.
pub open spec fn hidden_zero() -> DecimalView {
    DecimalView { negative: false, whole: "0"@, fraction: "0"@ }
}

/// What follows the `=` of a value slot: a quoted string, `@`, a number, the
/// name of an opcode, or `#` and a colour; the first of these that fits.
pub open spec fn parse_default(s: Seq<char>, pos: int) -> Option<(DefaultValueView, int)> {
    if !holds(s, pos, '=') {
        None
    } else {
        match parse_string(s, pos + 1) {
            Some((text, p)) => Some((DefaultValueView::Str(text), p)),
            None => if holds(s, pos + 1, '@') {
                Some((DefaultValueView::Num(hidden_zero(), false), pos + 2))
            } else {
                match parse_number(s, pos + 1) {
                    Some((number, p)) => Some((DefaultValueView::Num(number, true), p)),
                    None => match parse_id(s, pos + 1) {
                        Some((opcode, p)) => Some((DefaultValueView::Block(opcode), p)),
                        None => if holds(s, pos + 1, '#') && hex6_at(s, pos + 2) {
                            Some((DefaultValueView::Color(hex6_color(s, pos + 2)), pos + 8))
                        } else {
                            None
                        },
                    },
                }
            },
        }
    }
}

/// One option of a dropdown: `/` value `=` quoted display, or `&` and a
/// quoted string that is both.
pub open spec fn parse_option(s: Seq<char>, pos: int) -> Option<(DropdownOptionView, int)> {
    if holds(s, pos, '/') {
        match parse_id(s, pos + 1) {
            Some((value, p)) => if holds(s, p, '=') {
                match parse_string(s, p + 1) {
                    Some((display, q)) => Some((DropdownOptionView { value, display }, q)),
                    None => None,
                }
            } else {
                None
            },
            None => None,
        }
    } else if holds(s, pos, '&') {
        match parse_string(s, pos + 1) {
            Some((text, q)) => Some((DropdownOptionView { value: text, display: text }, q)),
            None => None,
        }
    } else {
        None
    }
}

/// `acc` extended by the options that stand at `pos`, one after the other;
/// and where they end.
pub open spec fn parse_options(s: Seq<char>, pos: int, acc: Seq<DropdownOptionView>) -> (
    Seq<DropdownOptionView>,
    int,
)
    decreases s.len() - pos,
{
    match parse_option(s, pos) {
        Some((option, p)) => if pos < p <= s.len() {
            parse_options(s, p, acc.push(option))
        } else {
            (acc, pos)
        },
        None => (acc, pos),
    }
}

/// The options of a dropdown as a template keeps them: `None` where there is
/// none.
pub open spec fn some_options(options: Seq<DropdownOptionView>) -> Option<Seq<DropdownOptionView>> {
    if options.len() == 0 {
        None
    } else {
        Some(options)
    }
}

/// What stands between square brackets: an icon, a bracket as literal text,
/// a dropdown with its options, or a field, a typed field, a colour swatch
/// or an alignment point, each told by its first character.
pub open spec fn parse_special(s: Seq<char>, pos: int) -> Option<(FragmentView, int)> {
    if starts_with(s, pos, "$FLAG"@) {
        Some((FragmentView::Flag, pos + "$FLAG"@.len()))
    } else if starts_with(s, pos, "$CLOCKWISE"@) {
        Some((FragmentView::Clockwise, pos + "$CLOCKWISE"@.len()))
    } else if starts_with(s, pos, "$ANTICLOCKWISE"@) {
        Some((FragmentView::Anticlockwise, pos + "$ANTICLOCKWISE"@.len()))
    } else if holds(s, pos, '<') || holds(s, pos, '(') || holds(s, pos, '[') || holds(s, pos, '{') {
        Some((FragmentView::Text(seq![s[pos]]), pos + 1))
    } else {
        match parse_id(s, pos) {
            Some((name, p)) => {
                let options = parse_options(s, p, Seq::empty());
                Some((FragmentView::Dropdown(name, some_options(options.0)), options.1))
            },
            None => match parse_id(s, pos + 1) {
                Some((name, p)) => if holds(s, pos, '&') {
                    Some((FragmentView::FieldText(name), p))
                } else if holds(s, pos, '*') {
                    Some((FragmentView::WritableFieldText(name), p))
                } else if holds(s, pos, '#') {
                    Some((FragmentView::CustomColour(name), p))
                } else if holds(s, pos, ':') {
                    Some((FragmentView::AlignmentPoint(name), p))
                } else {
                    None
                },
                None => None,
            },
        }
    }
}

/// A value slot: `(`, a name, an optional default, `)`.
pub open spec fn parse_value_slot(s: Seq<char>, pos: int) -> Option<(FragmentView, int)> {
    match parse_id(s, pos + 1) {
        Some((name, p)) => match parse_default(s, p) {
            Some((default, q)) => if holds(s, q, ')') {
                Some((FragmentView::StrumberInput(name, Some(default)), q + 1))
            } else {
                None
            },
            None => if holds(s, p, ')') {
                Some((FragmentView::StrumberInput(name, None), p + 1))
            } else {
                None
            },
        },
        None => None,
    }
}

/// A name between `open` and `close`.
pub open spec fn parse_enclosed(s: Seq<char>, pos: int, close: char) -> Option<(Seq<char>, int)> {
    match parse_id(s, pos + 1) {
        Some((name, p)) => if holds(s, p, close) {
            Some((name, p + 1))
        } else {
            None
        },
        None => None,
    }
}

/// The fragment that stands at `pos`: a slot or a bracketed fragment where
/// a bracket opens, a spacer for a tab, else the longest run of literal
/// text.
pub open spec fn parse_fragment(s: Seq<char>, pos: int) -> Option<(FragmentView, int)> {
    if holds(s, pos, '(') {
        parse_value_slot(s, pos)
    } else if holds(s, pos, '<') {
        match parse_enclosed(s, pos, '>') {
            Some((name, p)) => Some((FragmentView::BooleanInput(name), p)),
            None => None,
        }
    } else if holds(s, pos, '{') {
        match parse_enclosed(s, pos, '}') {
            Some((name, p)) => Some((FragmentView::BlockInput(name), p)),
            None => None,
        }
    } else if holds(s, pos, '[') {
        match parse_special(s, pos + 1) {
            Some((fragment, p)) => if holds(s, p, ']') {
                Some((fragment, p + 1))
            } else {
                None
            },
            None => None,
        }
    } else if holds(s, pos, '\t') {
        Some((FragmentView::Expander, pos + 1))
    } else if 0 <= pos < s.len() {
        Some((FragmentView::Text(s.subrange(pos, scan(s, pos, Run::Text))), scan(s, pos, Run::Text)))
    } else {
        None
    }
}

/// `acc` extended by the fragments from `pos` to the end of the line; `None`
/// where something at or after `pos` is no fragment.
pub open spec fn parse_fragments(s: Seq<char>, pos: int, acc: Seq<FragmentView>) -> Option<
    Seq<FragmentView>,
>
    decreases s.len() - pos,
{
    if pos >= s.len() {
        Some(acc)
    } else {
        match parse_fragment(s, pos) {
            Some((fragment, p)) => if pos < p <= s.len() {
                parse_fragments(s, p, acc.push(fragment))
            } else {
                None
            },
            None => None,
        }
    }
}

/// The fragments of one display line; `None` for an empty or malformed
/// line.
pub open spec fn parse_line(s: Seq<char>) -> Option<Seq<FragmentView>> {
    if s.len() == 0 {
        None
    } else {
        parse_fragments(s, 0, Seq::empty())
    }
}

/// Where the line that starts at `pos` ends: at the next line feed or at the
/// end of the text.
pub open spec fn line_end(s: Seq<char>, pos: int) -> int
    decreases s.len() - pos,
{
    if 0 <= pos < s.len() && s[pos] != '\n' {
        line_end(s, pos + 1)
    } else {
        pos
    }
}

/// The line from `pos` to `end`, without the carriage return before the
/// line feed that ends it.
pub open spec fn line_text(s: Seq<char>, pos: int, end: int) -> Seq<char> {
    if end < s.len() && pos < end && s[end - 1] == '\r' {
        s.subrange(pos, end - 1)
    } else {
        s.subrange(pos, end)
    }
}

/// `acc` extended by the lines of `s` from `pos` on. A line ends with a line
/// feed or with the text; a line feed at the very end opens no further line.
pub open spec fn split_lines(s: Seq<char>, pos: int, acc: Seq<Seq<char>>) -> Seq<Seq<char>>
    decreases s.len() - pos,
{
    if pos < 0 || pos >= s.len() {
        acc
    } else {
        let end = line_end(s, pos);
        if end < pos {
            acc
        } else if end >= s.len() {
            acc.push(line_text(s, pos, end))
        } else {
            split_lines(s, end + 1, acc.push(line_text(s, pos, end)))
        }
    }
}

/// `acc` extended by the fragments of each line from index `from` on; `None`
/// where a line is malformed.
pub open spec fn parse_lines(lines: Seq<Seq<char>>, from: int, acc: Seq<Seq<FragmentView>>) -> Option<
    Seq<Seq<FragmentView>>,
>
    decreases lines.len() - from,
{
    if from < 0 || from >= lines.len() {
        Some(acc)
    } else {
        match parse_line(lines[from]) {
            Some(fragments) => parse_lines(lines, from + 1, acc.push(fragments)),
            None => None,
        }
    }
}

/// The options of the first dropdown of `line` from index `from` on, and
/// whether there is a dropdown.
pub open spec fn first_dropdown_in_line(line: Seq<FragmentView>, from: int) -> Option<
    Option<Seq<DropdownOptionView>>,
>
    decreases line.len() - from,
{
    if from < 0 || from >= line.len() {
        None
    } else {
        match line[from] {
            FragmentView::Dropdown(_, options) => Some(options),
            _ => first_dropdown_in_line(line, from + 1),
        }
    }
}

/// The options of the first dropdown of the lines from index `from` on;
/// `None` where there is no dropdown or the first one has no options of its
/// own.
pub open spec fn first_dropdown(lines: Seq<Seq<FragmentView>>, from: int) -> Option<
    Seq<DropdownOptionView>,
>
    decreases lines.len() - from,
{
    if from < 0 || from >= lines.len() {
        None
    } else {
        match first_dropdown_in_line(lines[from], 0) {
            Some(options) => options,
            None => first_dropdown(lines, from + 1),
        }
    }
}

/// The number of characters of a template's header.
pub const HEADER_LEN: usize = 22;

/// The shape that the first character of a template selects.
pub open spec fn shape_of(c: char) -> Option<Shape> {
    if c == '<' {
        Some(Shape::Hexagon)
    } else if c == '(' {
        Some(Shape::Circle)
    } else if c == '{' {
        Some(Shape::Stack)
    } else {
        None
    }
}

/// Whether the header of a template is well-formed: a shape character, and
/// six hexadecimal digits at each of the three colour places.
pub open spec fn header_ok(t: Seq<char>) -> bool {
    t.len() >= HEADER_LEN && shape_of(t[0]) is Some && hex6_at(t, 1) && hex6_at(t, 8) && hex6_at(
        t,
        15,
    )
}

/// What a template means; `None` for a malformed one.
pub open spec fn parse_template(t: Seq<char>) -> Option<SpecView> {
    if !header_ok(t) {
        None
    } else {
        match parse_lines(split_lines(t.skip(HEADER_LEN as int), 0, Seq::empty()), 0, Seq::empty()) {
            Some(lines) => Some(
                SpecView {
                    shape: shape_of(t[0])->0,
                    is_shadow: t[21] == '!',
                    is_hat: t[21] == '^',
                    block_color: hex6_color(t, 1),
                    text_color: hex6_color(t, 8),
                    alt_color: hex6_color(t, 15),
                    lines,
                    static_dropdown_options: first_dropdown(lines, 0),
                },
            ),
            None => None,
        }
    }
}

fn in_run_exec(run: Run, c: char) -> (r: bool)
    ensures
        r == in_run(run, c),
{
    match run {
        Run::Name => char_is_alphanum(c) || c == '_',
        Run::Digits => char_is_digit(c),
        Run::Text => c != '(' && c != '<' && c != '{' && c != '[',
        Run::Quoted => c != '`',
    }
}

fn scan_exec(chars: &Vec<char>, pos: usize, run: Run) -> (end: usize)
    requires
        pos <= chars.len(),
    ensures
        end == scan(chars@, pos as int, run),
        pos <= end <= chars.len(),
{
    let mut end: usize = pos;
    while end < chars.len() && in_run_exec(run, chars[end])
        invariant
            pos <= end <= chars.len(),
            scan(chars@, end as int, run) == scan(chars@, pos as int, run),
        decreases chars.len() - end,
    {
        end += 1;
    }
    end
}

fn is_at(chars: &Vec<char>, pos: usize, c: char) -> (r: bool)
    ensures
        r == holds(chars@, pos as int, c),
        r ==> pos < chars.len(),
{
    pos < chars.len() && chars[pos] == c
}

fn starts_with_exec(chars: &Vec<char>, pos: usize, word: &str) -> (r: Option<usize>)
    ensures
        match r {
            Some(end) => starts_with(chars@, pos as int, word@) && end == pos + word@.len() && end
                <= chars.len(),
            None => !starts_with(chars@, pos as int, word@),
        },
{
    let w = chars_of(word);
    if w.len() > chars.len() || pos > chars.len() - w.len() {
        return None;
    }
    let mut k: usize = 0;
    while k < w.len()
        invariant
            k <= w.len(),
            pos + w.len() <= chars.len(),
            w@ == word@,
            forall|j: int| 0 <= j < k ==> chars@[pos + j] == w@[j],
        decreases w.len() - k,
    {
        if chars[pos + k] != w[k] {
            assert(chars@.subrange(pos as int, pos + w.len())[k as int] != w@[k as int]);
            return None;
        }
        k += 1;
    }
    assert(chars@.subrange(pos as int, pos + w.len()) =~= w@);
    Some(pos + w.len())
}

/// A run ends no earlier than it starts.
proof fn lemma_scan(s: Seq<char>, pos: int, run: Run)
    ensures
        scan(s, pos, run) >= pos,
        0 <= pos ==> scan(s, pos, run) <= s.len() || scan(s, pos, run) == pos,
    decreases s.len() - pos,
{
    if 0 <= pos < s.len() && in_run(run, s[pos]) {
        lemma_scan(s, pos + 1, run);
    }
}

/// The characters `from..to` of the line as a text of its own.
fn slice(text: &str, chars: &Vec<char>, from: usize, to: usize) -> (r: String)
    requires
        text@ == chars@,
        from <= to <= chars.len(),
    ensures
        r@ == chars@.subrange(from as int, to as int),
{
    text.substring_char(from, to).to_owned()
}

fn parse_id_exec(text: &str, chars: &Vec<char>, pos: usize) -> (r: Option<(String, usize)>)
    requires
        text@ == chars@,
    ensures
        match r {
            Some(found) => parse_id(chars@, pos as int) == Some((found.0@, found.1 as int))
                && pos < found.1 <= chars.len(),
            None => parse_id(chars@, pos as int) is None,
        },
{
    if pos >= chars.len() {
        return None;
    }
    let end = scan_exec(chars, pos, Run::Name);
    if end > pos {
        Some((slice(text, chars, pos, end), end))
    } else {
        None
    }
}

fn parse_string_exec(text: &str, chars: &Vec<char>, pos: usize) -> (r: Option<(String, usize)>)
    requires
        text@ == chars@,
    ensures
        match r {
            Some(found) => parse_string(chars@, pos as int) == Some((found.0@, found.1 as int))
                && pos < found.1 <= chars.len(),
            None => parse_string(chars@, pos as int) is None,
        },
{
    if !is_at(chars, pos, '`') {
        return None;
    }
    let end = scan_exec(chars, pos + 1, Run::Quoted);
    if is_at(chars, end, '`') {
        Some((slice(text, chars, pos + 1, end), end + 1))
    } else {
        None
    }
}

fn parse_number_exec(text: &str, chars: &Vec<char>, pos: usize) -> (r: Option<(Decimal, usize)>)
    requires
        text@ == chars@,
    ensures
        match r {
            Some(found) => parse_number(chars@, pos as int) == Some((found.0@, found.1 as int))
                && pos < found.1 <= chars.len(),
            None => parse_number(chars@, pos as int) is None,
        },
{
    let negative = is_at(chars, pos, '-');
    if pos >= chars.len() {
        return None;
    }
    let start = if negative {
        pos + 1
    } else {
        pos
    };
    let point = scan_exec(chars, start, Run::Digits);
    if point <= start || !is_at(chars, point, '.') {
        return None;
    }
    let end = scan_exec(chars, point + 1, Run::Digits);
    if end <= point + 1 {
        return None;
    }
    Some(
        (
            Decimal {
                negative,
                whole: slice(text, chars, start, point),
                fraction: slice(text, chars, point + 1, end),
            },
            end,
        ),
    )
}

fn hex6_exec(chars: &Vec<char>, pos: usize) -> (r: Option<(u8, u8, u8)>)
    ensures
        match r {
            Some(c) => hex6_at(chars@, pos as int) && c == hex6_color(chars@, pos as int),
            None => !hex6_at(chars@, pos as int),
        },
{
    if chars.len() < 6 || pos > chars.len() - 6 {
        return None;
    }
    let ghost d = chars@.subrange(pos as int, pos + 6);
    let mut bits: u32 = 0;
    let mut k: usize = 0;
    while k < 6
        invariant
            k <= 6,
            pos + 6 <= chars.len(),
            d == chars@.subrange(pos as int, pos + 6),
            forall|j: int| pos <= j < pos + k ==> is_hex_digit(#[trigger] chars@[j]),
            bits == hex_value(d.take(k as int)),
            bits < 0x1000000,
            k < 6 ==> bits < 0x100000,
            k < 5 ==> bits < 0x10000,
            k < 4 ==> bits < 0x1000,
            k < 3 ==> bits < 0x100,
            k < 2 ==> bits < 0x10,
            k < 1 ==> bits == 0,
        decreases 6 - k,
    {
        let c = chars[pos + k];
        if !char_is_hex_digit(c) {
            return None;
        }
        let v = hex_digit_of(c);
        proof {
            let t = d.take(k as int + 1);
            assert(t.drop_last() =~= d.take(k as int));
            assert(t.last() == c);
        }
        bits = bits * 16 + v;
        k += 1;
    }
    assert(d.take(6) =~= d);
    Some(
        (
            ((bits / 0x10000) % 0x100) as u8,
            ((bits / 0x100) % 0x100) as u8,
            (bits % 0x100) as u8,
        ),
    )
}

fn parse_default_exec(text: &str, chars: &Vec<char>, pos: usize) -> (r: Option<(DefaultValue, usize)>)
    requires
        text@ == chars@,
    ensures
        match r {
            Some(found) => parse_default(chars@, pos as int) == Some((found.0@, found.1 as int))
                && pos < found.1 <= chars.len(),
            None => parse_default(chars@, pos as int) is None,
        },
{
    if !is_at(chars, pos, '=') {
        return None;
    }
    match parse_string_exec(text, chars, pos + 1) {
        Some(found) => {
            return Some((DefaultValue::Str(found.0), found.1));
        },
        None => {},
    }
    if is_at(chars, pos + 1, '@') {
        let zero = Decimal { negative: false, whole: "0".to_owned(), fraction: "0".to_owned() };
        return Some((DefaultValue::Num(zero, false), pos + 2));
    }
    match parse_number_exec(text, chars, pos + 1) {
        Some(found) => {
            return Some((DefaultValue::Num(found.0, true), found.1));
        },
        None => {},
    }
    match parse_id_exec(text, chars, pos + 1) {
        Some(found) => {
            return Some((DefaultValue::Block(found.0), found.1));
        },
        None => {},
    }
    if is_at(chars, pos + 1, '#') {
        match hex6_exec(chars, pos + 2) {
            Some(c) => {
                return Some((DefaultValue::Color(c), pos + 8));
            },
            None => {},
        }
    }
    None
}

fn parse_option_exec(text: &str, chars: &Vec<char>, pos: usize) -> (r: Option<(DropdownOption, usize)>)
    requires
        text@ == chars@,
    ensures
        match r {
            Some(found) => parse_option(chars@, pos as int) == Some((found.0@, found.1 as int))
                && pos < found.1 <= chars.len(),
            None => parse_option(chars@, pos as int) is None,
        },
{
    if is_at(chars, pos, '/') {
        let (value, p) = match parse_id_exec(text, chars, pos + 1) {
            Some(found) => found,
            None => {
                return None;
            },
        };
        if !is_at(chars, p, '=') {
            return None;
        }
        match parse_string_exec(text, chars, p + 1) {
            Some(found) => Some((DropdownOption { value, display: found.0 }, found.1)),
            None => None,
        }
    } else if is_at(chars, pos, '&') {
        match parse_string_exec(text, chars, pos + 1) {
            Some(found) => {
                let value = found.0.clone();
                Some((DropdownOption { value, display: found.0 }, found.1))
            },
            None => None,
        }
    } else {
        None
    }
}

fn parse_options_exec(text: &str, chars: &Vec<char>, pos: usize) -> (r: (Vec<DropdownOption>, usize))
    requires
        text@ == chars@,
        pos <= chars.len(),
    ensures
        (options_view(r.0@), r.1 as int) == parse_options(chars@, pos as int, Seq::empty()),
        pos <= r.1 <= chars.len(),
{
    let mut options: Vec<DropdownOption> = Vec::new();
    assert(options_view(options@) =~= Seq::empty());
    let mut p: usize = pos;
    loop
        invariant
            text@ == chars@,
            pos <= p <= chars.len(),
            parse_options(chars@, p as int, options_view(options@)) == parse_options(
                chars@,
                pos as int,
                Seq::empty(),
            ),
        decreases chars.len() - p,
    {
        let ghost before = options_view(options@);
        match parse_option_exec(text, chars, p) {
            Some(found) => {
                options.push(found.0);
                assert(options_view(options@) =~= before.push(found.0@));
                p = found.1;
            },
            None => {
                return (options, p);
            },
        }
    }
}

fn parse_special_exec(text: &str, chars: &Vec<char>, pos: usize) -> (r: Option<(Fragment, usize)>)
    requires
        text@ == chars@,
    ensures
        match r {
            Some(found) => parse_special(chars@, pos as int) == Some((found.0@, found.1 as int))
                && pos < found.1 <= chars.len(),
            None => parse_special(chars@, pos as int) is None,
        },
{
    proof {
        reveal_strlit("$FLAG");
        reveal_strlit("$CLOCKWISE");
        reveal_strlit("$ANTICLOCKWISE");
    }
    match starts_with_exec(chars, pos, "$FLAG") {
        Some(end) => {
            return Some((Fragment::Flag, end));
        },
        None => {},
    }
    match starts_with_exec(chars, pos, "$CLOCKWISE") {
        Some(end) => {
            return Some((Fragment::Clockwise, end));
        },
        None => {},
    }
    match starts_with_exec(chars, pos, "$ANTICLOCKWISE") {
        Some(end) => {
            return Some((Fragment::Anticlockwise, end));
        },
        None => {},
    }
    if is_at(chars, pos, '<') || is_at(chars, pos, '(') || is_at(chars, pos, '[') || is_at(
        chars,
        pos,
        '{',
    ) {
        let bracket = slice(text, chars, pos, pos + 1);
        assert(bracket@ =~= seq![chars@[pos as int]]);
        return Some((Fragment::Text(bracket), pos + 1));
    }
    match parse_id_exec(text, chars, pos) {
        Some(name) => {
            let options = parse_options_exec(text, chars, name.1);
            let kept = if options.0.len() == 0 {
                None
            } else {
                Some(options.0)
            };
            return Some((Fragment::Dropdown(name.0, kept), options.1));
        },
        None => {},
    }
    if pos >= chars.len() {
        return None;
    }
    let c = chars[pos];
    if c == '&' || c == '*' || c == '#' || c == ':' {
        match parse_id_exec(text, chars, pos + 1) {
            Some(name) => {
                let fragment = if c == '&' {
                    Fragment::FieldText(name.0)
                } else if c == '*' {
                    Fragment::WritableFieldText(name.0)
                } else if c == '#' {
                    Fragment::CustomColour(name.0)
                } else {
                    Fragment::AlignmentPoint(name.0)
                };
                Some((fragment, name.1))
            },
            None => None,
        }
    } else {
        None
    }
}

fn parse_fragment_exec(text: &str, chars: &Vec<char>, pos: usize) -> (r: Option<(Fragment, usize)>)
    requires
        text@ == chars@,
        pos < chars.len(),
    ensures
        match r {
            Some(found) => parse_fragment(chars@, pos as int) == Some((found.0@, found.1 as int))
                && pos < found.1 <= chars.len(),
            None => parse_fragment(chars@, pos as int) is None,
        },
{
    let c = chars[pos];
    if c == '(' {
        let (name, p) = match parse_id_exec(text, chars, pos + 1) {
            Some(found) => found,
            None => {
                return None;
            },
        };
        let (default, q) = match parse_default_exec(text, chars, p) {
            Some(found) => (Some(found.0), found.1),
            None => (None, p),
        };
        if is_at(chars, q, ')') {
            Some((Fragment::StrumberInput(name, default), q + 1))
        } else {
            None
        }
    } else if c == '<' || c == '{' {
        let close = if c == '<' {
            '>'
        } else {
            '}'
        };
        let (name, p) = match parse_id_exec(text, chars, pos + 1) {
            Some(found) => found,
            None => {
                return None;
            },
        };
        if !is_at(chars, p, close) {
            return None;
        }
        if c == '<' {
            Some((Fragment::BooleanInput(name), p + 1))
        } else {
            Some((Fragment::BlockInput(name), p + 1))
        }
    } else if c == '[' {
        match parse_special_exec(text, chars, pos + 1) {
            Some(found) => {
                if is_at(chars, found.1, ']') {
                    Some((found.0, found.1 + 1))
                } else {
                    None
                }
            },
            None => None,
        }
    } else if c == '\t' {
        Some((Fragment::Expander, pos + 1))
    } else {
        let end = scan_exec(chars, pos, Run::Text);
        proof {
            assert(in_run(Run::Text, chars@[pos as int]));
            lemma_scan(chars@, pos as int + 1, Run::Text);
        }
        Some((Fragment::Text(slice(text, chars, pos, end)), end))
    }
}

/// The fragments of one display line; `None` for an empty or malformed
/// line.
pub fn parse_line_exec(text: &str) -> (r: Option<Vec<Fragment>>)
    ensures
        match r {
            Some(line) => parse_line(text@) == Some(line_view(line@)),
            None => parse_line(text@) is None,
        },
{
    let chars = chars_of(text);
    if chars.len() == 0 {
        return None;
    }
    let mut line: Vec<Fragment> = Vec::new();
    assert(line_view(line@) =~= Seq::empty());
    let mut pos: usize = 0;
    while pos < chars.len()
        invariant
            text@ == chars@,
            pos <= chars.len(),
            parse_fragments(chars@, pos as int, line_view(line@)) == parse_line(text@),
        decreases chars.len() - pos,
    {
        let ghost before = line_view(line@);
        match parse_fragment_exec(text, &chars, pos) {
            Some(found) => {
                line.push(found.0);
                assert(line_view(line@) =~= before.push(found.0@));
                pos = found.1;
            },
            None => {
                return None;
            },
        }
    }
    Some(line)
}

/// The options of the first dropdown among the lines.
fn first_dropdown_exec(lines: &Vec<Vec<Fragment>>) -> (r: Option<Vec<DropdownOption>>)
    ensures
        crate::spec::opt_options_view(r) == first_dropdown(lines_view(lines@), 0),
{
    let mut l: usize = 0;
    while l < lines.len()
        invariant
            l <= lines.len(),
            first_dropdown(lines_view(lines@), l as int) == first_dropdown(lines_view(lines@), 0),
        decreases lines.len() - l,
    {
        let line = &lines[l];
        let mut f: usize = 0;
        while f < line.len()
            invariant
                l < lines.len(),
                line == lines@[l as int],
                f <= line.len(),
                first_dropdown_in_line(lines_view(lines@)[l as int], f as int)
                    == first_dropdown_in_line(lines_view(lines@)[l as int], 0),
                first_dropdown(lines_view(lines@), l as int) == first_dropdown(
                    lines_view(lines@),
                    0,
                ),
            decreases line.len() - f,
        {
            assert(lines_view(lines@)[l as int][f as int] == line@[f as int]@);
            match &line[f] {
                Fragment::Dropdown(_, options) => {
                    return match options {
                        Some(v) => Some(clone_options(v)),
                        None => None,
                    };
                },
                _ => {},
            }
            f += 1;
        }
        l += 1;
    }
    None
}

/// Reads a template; `None` for a malformed one.
pub fn compile(template: &str) -> (r: Option<Spec>)
    ensures
        match r {
            Some(spec) => parse_template(template@) == Some(spec@),
            None => parse_template(template@) is None,
        },
{
    let chars = chars_of(template);
    if chars.len() < HEADER_LEN {
        return None;
    }
    let first = chars[0];
    let shape = if first == '<' {
        Shape::Hexagon
    } else if first == '(' {
        Shape::Circle
    } else if first == '{' {
        Shape::Stack
    } else {
        return None;
    };
    let block_color = match hex6_exec(&chars, 1) {
        Some(c) => c,
        None => {
            return None;
        },
    };
    let text_color = match hex6_exec(&chars, 8) {
        Some(c) => c,
        None => {
            return None;
        },
    };
    let alt_color = match hex6_exec(&chars, 15) {
        Some(c) => c,
        None => {
            return None;
        },
    };
    let flag = chars[21];
    assert(header_ok(template@));
    let n = chars.len();
    let body = template.substring_char(HEADER_LEN, n);
    let rest = chars_of(body);
    assert(rest@ =~= template@.skip(HEADER_LEN as int));
    let mut lines: Vec<Vec<Fragment>> = Vec::new();
    assert(lines_view(lines@) =~= Seq::empty());
    let ghost all = split_lines(rest@, 0, Seq::empty());
    let ghost mut done: Seq<Seq<char>> = Seq::empty();
    let mut pos: usize = 0;
    while pos < rest.len()
        invariant
            body@ == rest@,
            pos <= rest.len(),
            all == split_lines(template@.skip(HEADER_LEN as int), 0, Seq::empty()),
            rest@ == template@.skip(HEADER_LEN as int),
            header_ok(template@),
            split_lines(rest@, pos as int, done) == all,
            done.len() == lines@.len(),
            parse_lines(done, 0, Seq::empty()) == Some(lines_view(lines@)),
        decreases rest.len() - pos,
    {
        let mut end: usize = pos;
        while end < rest.len() && rest[end] != '\n'
            invariant
                pos <= end <= rest.len(),
                line_end(rest@, end as int) == line_end(rest@, pos as int),
            decreases rest.len() - end,
        {
            end += 1;
        }
        let stop = if end < rest.len() && pos < end && rest[end - 1] == '\r' {
            end - 1
        } else {
            end
        };
        let text = body.substring_char(pos, stop);
        assert(text@ == line_text(rest@, pos as int, end as int));
        let ghost before = lines_view(lines@);
        let ghost seen = done;
        match parse_line_exec(text) {
            Some(line) => {
                lines.push(line);
                proof {
                    done = seen.push(text@);
                    assert(lines_view(lines@) =~= before.push(line_view(line@)));
                    lemma_parse_lines_push(seen, text@, before);
                }
            },
            None => {
                proof {
                    lemma_parse_lines_stuck(seen, text@, before);
                    lemma_parse_lines_prefix(all, seen.push(text@), rest@, end as int + 1);
                }
                return None;
            },
        }
        pos = if end < rest.len() {
            end + 1
        } else {
            end
        };
    }
    proof {
        assert(all == done);
    }
    let static_dropdown_options = first_dropdown_exec(&lines);
    Some(
        Spec {
            shape,
            is_shadow: flag == '!',
            is_hat: flag == '^',
            block_color,
            text_color,
            alt_color,
            lines,
            static_dropdown_options,
        },
    )
}

/// Parsing one more well-formed line extends what was parsed.
proof fn lemma_parse_lines_push(done: Seq<Seq<char>>, text: Seq<char>, parsed: Seq<Seq<FragmentView>>)
    requires
        parse_lines(done, 0, Seq::empty()) == Some(parsed),
        parse_line(text) is Some,
    ensures
        parse_lines(done.push(text), 0, Seq::empty()) == Some(parsed.push(parse_line(text)->0)),
{
    lemma_parse_lines_from(done, text, 0, Seq::empty());
}

/// Parsing from `from` on is parsing the old lines and then the new one.
proof fn lemma_parse_lines_from(
    done: Seq<Seq<char>>,
    text: Seq<char>,
    from: int,
    acc: Seq<Seq<FragmentView>>,
)
    requires
        0 <= from <= done.len(),
    ensures
        parse_lines(done.push(text), from, acc) == match parse_lines(done, from, acc) {
            Some(parsed) => match parse_line(text) {
                Some(line) => Some(parsed.push(line)),
                None => None,
            },
            None => None,
        },
    decreases done.len() - from,
{
    let more = done.push(text);
    if from < done.len() {
        assert(more[from] == done[from]);
        match parse_line(done[from]) {
            Some(fragments) => {
                lemma_parse_lines_from(done, text, from + 1, acc.push(fragments));
            },
            None => {},
        }
    } else {
        assert(more[from] == text);
        match parse_line(text) {
            Some(line) => {
                assert(parse_lines(more, from + 1, acc.push(line)) == Some(acc.push(line)));
            },
            None => {},
        }
    }
}

/// A malformed line makes the lines up to it malformed.
proof fn lemma_parse_lines_stuck(done: Seq<Seq<char>>, text: Seq<char>, parsed: Seq<Seq<FragmentView>>)
    requires
        parse_lines(done, 0, Seq::empty()) == Some(parsed),
        parse_line(text) is None,
    ensures
        parse_lines(done.push(text), 0, Seq::empty()) is None,
{
    lemma_parse_lines_from(done, text, 0, Seq::empty());
}

/// Lines that begin with a malformed run of lines are malformed.
proof fn lemma_parse_lines_prefix(all: Seq<Seq<char>>, head: Seq<Seq<char>>, s: Seq<char>, pos: int)
    requires
        split_lines(s, pos, head) == all,
        parse_lines(head, 0, Seq::empty()) is None,
    ensures
        parse_lines(all, 0, Seq::empty()) is None,
    decreases s.len() - pos,
{
    if pos < 0 || pos >= s.len() {
    } else {
        let end = line_end(s, pos);
        if end >= pos {
            let more = head.push(line_text(s, pos, end));
            lemma_parse_lines_from(head, line_text(s, pos, end), 0, Seq::empty());
            if end < s.len() {
                lemma_parse_lines_prefix(all, more, s, end + 1);
            }
        }
    }
}

} // verus!
