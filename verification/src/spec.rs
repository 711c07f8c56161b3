//! Block templates: the shape, colours and display fragments of one opcode.

use vstd::prelude::*;
use vstd::string::*;
use crate::util::chars_of;

verus! {

#[derive(Debug, Clone, Copy, PartialEq, Eq, Structural)]
pub enum Shape {
    Circle,
    Hexagon,
    Stack,
}

/// A decimal literal as written: a sign, the digits before the point and the
/// digits after it.
#[derive(Debug)]
pub struct Decimal {
    pub negative: bool,
    pub whole: String,
    pub fraction: String,
}

/// What fills an empty value slot when a block is made from its template.
#[derive(Debug)]
pub enum DefaultValue {
    /// A shadow block of the named opcode.
    Block(String),
    /// A text literal.
    Str(String),
    /// A number literal, and whether it is shown.
    Num(Decimal, bool),
    /// A colour literal.
    Color((u8, u8, u8)),
}

#[derive(Debug)]
pub struct DropdownOption {
    pub value: String,
    pub display: String,
}

#[derive(Debug)]
pub enum Fragment {
    Text(String),
    StrumberInput(String, Option<DefaultValue>),
    BooleanInput(String),
    BlockInput(String),
    Dropdown(String, Option<Vec<DropdownOption>>),
    Expander,
    AlignmentPoint(String),
    Flag,
    Clockwise,
    Anticlockwise,
    WritableFieldText(String),
    FieldText(String),
    CustomColour(String),
}

#[derive(Debug)]
pub struct Spec {
    pub shape: Shape,
    pub is_shadow: bool,
    pub is_hat: bool,
    pub block_color: (u8, u8, u8),
    pub text_color: (u8, u8, u8),
    pub alt_color: (u8, u8, u8),
    pub lines: Vec<Vec<Fragment>>,
    pub static_dropdown_options: Option<Vec<DropdownOption>>,
}

#[verifier::ext_equal]
pub struct DecimalView {
    pub negative: bool,
    pub whole: Seq<char>,
    pub fraction: Seq<char>,
}

#[verifier::ext_equal]
pub enum DefaultValueView {
    Block(Seq<char>),
    Str(Seq<char>),
    Num(DecimalView, bool),
    Color((u8, u8, u8)),
}

#[verifier::ext_equal]
pub struct DropdownOptionView {
    pub value: Seq<char>,
    pub display: Seq<char>,
}

#[verifier::ext_equal]
pub enum FragmentView {
    Text(Seq<char>),
    StrumberInput(Seq<char>, Option<DefaultValueView>),
    BooleanInput(Seq<char>),
    BlockInput(Seq<char>),
    Dropdown(Seq<char>, Option<Seq<DropdownOptionView>>),
    Expander,
    AlignmentPoint(Seq<char>),
    Flag,
    Clockwise,
    Anticlockwise,
    WritableFieldText(Seq<char>),
    FieldText(Seq<char>),
    CustomColour(Seq<char>),
}

#[verifier::ext_equal]
pub struct SpecView {
    pub shape: Shape,
    pub is_shadow: bool,
    pub is_hat: bool,
    pub block_color: (u8, u8, u8),
    pub text_color: (u8, u8, u8),
    pub alt_color: (u8, u8, u8),
    pub lines: Seq<Seq<FragmentView>>,
    pub static_dropdown_options: Option<Seq<DropdownOptionView>>,
}

impl View for Decimal {
    type V = DecimalView;

    open spec fn view(&self) -> DecimalView {
        DecimalView { negative: self.negative, whole: self.whole@, fraction: self.fraction@ }
    }
}

impl View for DefaultValue {
    type V = DefaultValueView;

    open spec fn view(&self) -> DefaultValueView {
        match *self {
            DefaultValue::Block(s) => DefaultValueView::Block(s@),
            DefaultValue::Str(s) => DefaultValueView::Str(s@),
            DefaultValue::Num(n, visible) => DefaultValueView::Num(n@, visible),
            DefaultValue::Color(c) => DefaultValueView::Color(c),
        }
    }
}

impl View for DropdownOption {
    type V = DropdownOptionView;

    open spec fn view(&self) -> DropdownOptionView {
        DropdownOptionView { value: self.value@, display: self.display@ }
    }
}

/// The views of a list of dropdown options.
pub open spec fn options_view(options: Seq<DropdownOption>) -> Seq<DropdownOptionView> {
    Seq::new(options.len(), |i: int| options[i]@)
}

/// The view of an optional list of dropdown options.
pub open spec fn opt_options_view(options: Option<Vec<DropdownOption>>) -> Option<
    Seq<DropdownOptionView>,
> {
    match options {
        Some(v) => Some(options_view(v@)),
        None => None,
    }
}

/// The view of an optional default.
pub open spec fn opt_default_view(default: Option<DefaultValue>) -> Option<DefaultValueView> {
    match default {
        Some(d) => Some(d@),
        None => None,
    }
}

impl View for Fragment {
    type V = FragmentView;

    open spec fn view(&self) -> FragmentView {
        match *self {
            Fragment::Text(s) => FragmentView::Text(s@),
            Fragment::StrumberInput(s, d) => FragmentView::StrumberInput(s@, opt_default_view(d)),
            Fragment::BooleanInput(s) => FragmentView::BooleanInput(s@),
            Fragment::BlockInput(s) => FragmentView::BlockInput(s@),
            Fragment::Dropdown(s, o) => FragmentView::Dropdown(s@, opt_options_view(o)),
            Fragment::Expander => FragmentView::Expander,
            Fragment::AlignmentPoint(s) => FragmentView::AlignmentPoint(s@),
            Fragment::Flag => FragmentView::Flag,
            Fragment::Clockwise => FragmentView::Clockwise,
            Fragment::Anticlockwise => FragmentView::Anticlockwise,
            Fragment::WritableFieldText(s) => FragmentView::WritableFieldText(s@),
            Fragment::FieldText(s) => FragmentView::FieldText(s@),
            Fragment::CustomColour(s) => FragmentView::CustomColour(s@),
        }
    }
}

/// The views of the fragments of one line.
pub open spec fn line_view(line: Seq<Fragment>) -> Seq<FragmentView> {
    Seq::new(line.len(), |i: int| line[i]@)
}

/// The views of a template's lines.
pub open spec fn lines_view(lines: Seq<Vec<Fragment>>) -> Seq<Seq<FragmentView>> {
    Seq::new(lines.len(), |i: int| line_view(lines[i]@))
}

impl View for Spec {
    type V = SpecView;

    open spec fn view(&self) -> SpecView {
        SpecView {
            shape: self.shape,
            is_shadow: self.is_shadow,
            is_hat: self.is_hat,
            block_color: self.block_color,
            text_color: self.text_color,
            alt_color: self.alt_color,
            lines: lines_view(self.lines@),
            static_dropdown_options: opt_options_view(self.static_dropdown_options),
        }
    }
}

impl Clone for Decimal {
    fn clone(&self) -> (r: Self)
        ensures
            r@ == self@,
    {
        Decimal {
            negative: self.negative,
            whole: self.whole.clone(),
            fraction: self.fraction.clone(),
        }
    }
}

impl Clone for DefaultValue {
    fn clone(&self) -> (r: Self)
        ensures
            r@ == self@,
    {
        match self {
            DefaultValue::Block(s) => DefaultValue::Block(s.clone()),
            DefaultValue::Str(s) => DefaultValue::Str(s.clone()),
            DefaultValue::Num(n, visible) => DefaultValue::Num(n.clone(), *visible),
            DefaultValue::Color(c) => DefaultValue::Color((c.0, c.1, c.2)),
        }
    }
}

impl Clone for DropdownOption {
    fn clone(&self) -> (r: Self)
        ensures
            r@ == self@,
    {
        DropdownOption { value: self.value.clone(), display: self.display.clone() }
    }
}

/// A copy of a list of dropdown options.
pub fn clone_options(options: &Vec<DropdownOption>) -> (r: Vec<DropdownOption>)
    ensures
        options_view(r@) == options_view(options@),
{
    let mut r: Vec<DropdownOption> = Vec::new();
    let mut i: usize = 0;
    while i < options.len()
        invariant
            i <= options.len(),
            r@.len() == i,
            forall|j: int| 0 <= j < i ==> r@[j]@ == options@[j]@,
        decreases options.len() - i,
    {
        r.push(options[i].clone());
        i += 1;
    }
    assert(options_view(r@) =~= options_view(options@));
    r
}

/// A copy of an optional list of dropdown options.
pub fn clone_opt_options(options: &Option<Vec<DropdownOption>>) -> (r: Option<Vec<DropdownOption>>)
    ensures
        opt_options_view(r) == opt_options_view(*options),
{
    match options {
        Some(v) => Some(clone_options(v)),
        None => None,
    }
}

impl Clone for Fragment {
    fn clone(&self) -> (r: Self)
        ensures
            r@ == self@,
    {
        match self {
            Fragment::Text(s) => Fragment::Text(s.clone()),
            Fragment::StrumberInput(s, d) => {
                let d2 = match d {
                    Some(v) => Some(v.clone()),
                    None => None,
                };
                Fragment::StrumberInput(s.clone(), d2)
            },
            Fragment::BooleanInput(s) => Fragment::BooleanInput(s.clone()),
            Fragment::BlockInput(s) => Fragment::BlockInput(s.clone()),
            Fragment::Dropdown(s, o) => Fragment::Dropdown(s.clone(), clone_opt_options(o)),
            Fragment::Expander => Fragment::Expander,
            Fragment::AlignmentPoint(s) => Fragment::AlignmentPoint(s.clone()),
            Fragment::Flag => Fragment::Flag,
            Fragment::Clockwise => Fragment::Clockwise,
            Fragment::Anticlockwise => Fragment::Anticlockwise,
            Fragment::WritableFieldText(s) => Fragment::WritableFieldText(s.clone()),
            Fragment::FieldText(s) => Fragment::FieldText(s.clone()),
            Fragment::CustomColour(s) => Fragment::CustomColour(s.clone()),
        }
    }
}

/// `s` without its leading zeros, but for the last character.
pub open spec fn trim_leading_zeros(s: Seq<char>) -> Seq<char>
    decreases s.len(),
{
    if s.len() > 1 && s[0] == '0' {
        trim_leading_zeros(s.drop_first())
    } else {
        s
    }
}

/// `s` without its trailing zeros.
pub open spec fn trim_trailing_zeros(s: Seq<char>) -> Seq<char>
    decreases s.len(),
{
    if s.len() > 0 && s.last() == '0' {
        trim_trailing_zeros(s.drop_last())
    } else {
        s
    }
}

impl DecimalView {
    /// The shortest way to write the number: the sign where it is negative,
    /// the whole part without leading zeros, and the fraction without
    /// trailing zeros where any digit of it is left.
    pub open spec fn render(self) -> Seq<char> {
        let sign = if self.negative {
            seq!['-']
        } else {
            Seq::empty()
        };
        let fraction = trim_trailing_zeros(self.fraction);
        let tail = if fraction.len() > 0 {
            seq!['.'] + fraction
        } else {
            Seq::empty()
        };
        sign + trim_leading_zeros(self.whole) + tail
    }
}

proof fn lemma_trim_leading(s: Seq<char>, i: int)
    requires
        0 <= i < s.len() || (i == 0 && s.len() == 0),
        forall|j: int| 0 <= j < i ==> s[j] == '0',
        i == s.len() - 1 || s[i] != '0' || s.len() == 0,
    ensures
        trim_leading_zeros(s) == s.subrange(i, s.len() as int),
    decreases s.len(),
{
    if s.len() > 1 && s[0] == '0' {
        if i == 0 {
            assert(s.len() - 1 == 0);
        } else {
            let t = s.drop_first();
            assert forall|j: int| 0 <= j < i - 1 implies t[j] == '0' by {
                assert(t[j] == s[j + 1]);
            }
            lemma_trim_leading(t, i - 1);
            assert(t.subrange(i - 1, t.len() as int) =~= s.subrange(i, s.len() as int));
        }
    } else {
        assert(i == 0);
        assert(s.subrange(0, s.len() as int) =~= s);
    }
}

proof fn lemma_trim_trailing(s: Seq<char>, n: int)
    requires
        0 <= n <= s.len(),
        forall|j: int| n <= j < s.len() ==> s[j] == '0',
        n == 0 || s[n - 1] != '0',
    ensures
        trim_trailing_zeros(s) == s.subrange(0, n),
    decreases s.len(),
{
    if s.len() > 0 && s.last() == '0' {
        let t = s.drop_last();
        assert(n < s.len());
        lemma_trim_trailing(t, n);
        assert(t.subrange(0, n) =~= s.subrange(0, n));
    } else {
        assert(n == s.len());
        assert(s.subrange(0, n) =~= s);
    }
}

impl Decimal {
    /// The shortest way to write the number.
    pub fn render(&self) -> (s: String)
        ensures
            s@ == self@.render(),
    {
        proof {
            reveal_strlit("-");
            reveal_strlit(".");
        }
        let mut out = if self.negative {
            "-".to_owned()
        } else {
            String::new()
        };
        let whole = chars_of(self.whole.as_str());
        let mut i: usize = 0;
        while i + 1 < whole.len() && whole[i] == '0'
            invariant
                i < whole.len() || (i == 0 && whole.len() == 0),
                forall|j: int| 0 <= j < i ==> whole@[j] == '0',
            decreases whole.len() - i,
        {
            i += 1;
        }
        proof {
            lemma_trim_leading(whole@, i as int);
        }
        out.append(self.whole.as_str().substring_char(i, whole.len()));
        let fraction = chars_of(self.fraction.as_str());
        let mut n: usize = fraction.len();
        while n > 0 && fraction[n - 1] == '0'
            invariant
                n <= fraction.len(),
                forall|j: int| n <= j < fraction.len() ==> fraction@[j] == '0',
            decreases n,
        {
            n -= 1;
        }
        proof {
            lemma_trim_trailing(fraction@, n as int);
        }
        if n > 0 {
            out.append(".");
            out.append(self.fraction.as_str().substring_char(0, n));
        }
        assert(out@ =~= self@.render());
        out
    }
}

impl FragmentView {
    /// The slot that the fragment opens, where it opens one.
    pub open spec fn slot_name(self) -> Option<Seq<char>> {
        match self {
            FragmentView::StrumberInput(s, _) => Some(s),
            FragmentView::BooleanInput(s) => Some(s),
            FragmentView::BlockInput(s) => Some(s),
            _ => None,
        }
    }

    /// The field that the fragment shows, where it shows one.
    pub open spec fn field_name(self) -> Option<Seq<char>> {
        match self {
            FragmentView::FieldText(s) => Some(s),
            FragmentView::WritableFieldText(s) => Some(s),
            FragmentView::CustomColour(s) => Some(s),
            FragmentView::Dropdown(s, _) => Some(s),
            _ => None,
        }
    }
}

impl SpecView {
    /// The fragments of all lines, one line after the other.
    pub open spec fn fragments(self) -> Seq<FragmentView> {
        self.lines.flatten()
    }
}


/// Reads a template. The template must be well-formed.
pub fn spec(s: &str) -> (r: Spec)
    requires
        crate::grammar::parse_template(s@) is Some,
    ensures
        Some(r@) == crate::grammar::parse_template(s@),
{
    match crate::grammar::compile(s) {
        Some(r) => r,
        None => Spec {
            shape: Shape::Stack,
            is_shadow: false,
            is_hat: false,
            block_color: (0, 0, 0),
            text_color: (0, 0, 0),
            alt_color: (0, 0, 0),
            lines: Vec::new(),
            static_dropdown_options: None,
        },
    }
}

} // verus!
