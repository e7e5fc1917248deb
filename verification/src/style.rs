//! Colours, text styles and styled string fragments.

use vstd::prelude::*;

verus! {

/// Colors
///
/// Here we define multiple defaults, or you can use your own RGB value
#[derive(Debug, Clone, Copy, PartialEq, Eq, Structural)]
pub enum Color {
    Reset,
    Black,
    Red,
    Green,
    Yellow,
    Blue,
    Magenta,
    Cyan,
    White,
    BrightBlack,
    BrightRed,
    BrightGreen,
    BrightYellow,
    BrightBlue,
    BrightMagenta,
    BrightCyan,
    BrightWhite,
    Rgb(u8, u8, u8),
    Indexed(u8),
}

/// Text appearance applied to a cell or [`Span`].
///
/// All fields are additive — unset fields inherit from whatever was beneath them.
/// Use [`Style::patch`] to layer one style on top of another.
#[derive(Debug, Clone, Copy, PartialEq, Eq, Structural)]
pub struct Style {
    /// Foreground (text) colour. `None` means inherit.
    pub fg: Option<Color>,
    /// Background colour. `None` means inherit.
    pub bg: Option<Color>,
    pub bold: bool,
    pub underline: bool,
    pub italic: bool,
}

/// The style with no colours and no attributes.
pub open spec fn plain_style() -> Style {
    Style { fg: None, bg: None, bold: false, underline: false, italic: false }
}

/// `first` when it is set, else `second`.
pub open spec fn or_else_color(first: Option<Color>, second: Option<Color>) -> Option<Color> {
    match first {
        Some(c) => Some(c),
        None => second,
    }
}

impl Default for Style {
    fn default() -> (s: Style)
        ensures
            s == plain_style(),
    {
        Style { fg: None, bg: None, bold: false, underline: false, italic: false }
    }
}

impl Style {
    /// `self` with `patch` layered on top.
    pub open spec fn spec_patch(self, patch: Style) -> Style {
        Style {
            fg: or_else_color(patch.fg, self.fg),
            bg: or_else_color(patch.bg, self.bg),
            bold: self.bold || patch.bold,
            underline: self.underline || patch.underline,
            italic: self.italic || patch.italic,
        }
    }

    /// Patch `self` with a new style.
    ///
    /// Only non-None/true fields in `patch` override the values in `self`
    pub fn patch(self, patch: Style) -> (r: Style)
        ensures
            r == self.spec_patch(patch),
    {
        let fg = match patch.fg {
            Some(c) => Some(c),
            None => self.fg,
        };
        let bg = match patch.bg {
            Some(c) => Some(c),
            None => self.bg,
        };
        Style {
            fg,
            bg,
            bold: self.bold || patch.bold,
            underline: self.underline || patch.underline,
            italic: self.italic || patch.italic,
        }
    }
}

/// Patching with the plain style changes nothing, and patching the plain style
/// gives the patch itself.
pub proof fn lemma_patch_identity(s: Style)
    ensures
        s.spec_patch(plain_style()) == s,
        plain_style().spec_patch(s) == s,
{
}

/// Layering styles is associative: patching with `b` then `c` is patching with
/// `b` patched by `c`.
pub proof fn lemma_patch_associative(a: Style, b: Style, c: Style)
    ensures
        a.spec_patch(b).spec_patch(c) == a.spec_patch(b.spec_patch(c)),
{
}

/// Patching a style with itself changes nothing.
pub proof fn lemma_patch_idempotent(s: Style)
    ensures
        s.spec_patch(s) == s,
{
}

/// Every colour and attribute that the patch sets is present in the result.
pub proof fn lemma_patch_wins(s: Style, p: Style)
    ensures
        p.fg is Some ==> s.spec_patch(p).fg == p.fg,
        p.bg is Some ==> s.spec_patch(p).bg == p.bg,
        p.bold ==> s.spec_patch(p).bold,
        p.underline ==> s.spec_patch(p).underline,
        p.italic ==> s.spec_patch(p).italic,
{
}

/// A value that can become the text of a [`Span`]: a string slice or an owned string.
pub trait SpanContent {
    /// The characters the value stands for.
    spec fn chars_view(&self) -> Seq<char>;

    /// Converts the value into an owned string of the same characters.
    fn into_string(self) -> (r: String)
        ensures
            r@ == self.chars_view(),
    ;
}

impl<'a> SpanContent for &'a str {
    open spec fn chars_view(&self) -> Seq<char> {
        (*self)@
    }

    fn into_string(self) -> (r: String) {
        String::from_str(self)
    }
}

impl SpanContent for String {
    open spec fn chars_view(&self) -> Seq<char> {
        self@
    }

    fn into_string(self) -> (r: String) {
        self
    }
}

/// The characters of `s`, in order.
pub fn string_chars(s: &str) -> (r: Vec<char>)
    ensures
        r@ == s@,
{
    let mut out: Vec<char> = Vec::new();
    for ch in it: s.chars()
        invariant
            it.seq() == s@,
            out@ == s@.take(it.index() as int),
    {
        proof {
            assert(s@.take(it.index() as int + 1) =~= s@.take(it.index() as int).push(ch));
        }
        out.push(ch);
    }
    proof {
        assert(s@.take(s@.len() as int) =~= s@);
    }
    out
}

/// A string fragment paired with a [`Style`].
///
/// A line of rich text is represented as `Vec<Span>`, where each span can carry
/// independent colors and attributes. Adjacent spans with the same style are
/// functionally identical to a single span — splitting is purely for convenience.
#[derive(Debug, Clone, PartialEq, Eq)]
pub struct Span {
    pub content: String,
    pub style: Style,
}

impl Span {
    /// Creates a `Span` with default (unstyled) appearance.
    pub fn raw<S: SpanContent>(content: S) -> (r: Span)
        ensures
            r.content@ == content.chars_view(),
            r.style == plain_style(),
    {
        Span { content: content.into_string(), style: Style::default() }
    }

    /// Creates a `Span` with the given [`Style`].
    pub fn styled<S: SpanContent>(content: S, style: Style) -> (r: Span)
        ensures
            r.content@ == content.chars_view(),
            r.style == style,
    {
        Span { content: content.into_string(), style }
    }
}

/// One step of putting a cell's style on the terminal, in the order it is sent.
#[derive(Debug, Clone, Copy, PartialEq, Eq, Structural)]
pub enum StyleCommand {
    ResetColor,
    Foreground(Color),
    Background(Color),
    Bold,
    Underline,
    Italic,
}

/// The commands that put `style` on the terminal: a reset, then each colour and
/// attribute that the style sets.
pub open spec fn style_commands_spec(style: Style) -> Seq<StyleCommand> {
    seq![StyleCommand::ResetColor]
        + (match style.fg {
        Some(c) => seq![StyleCommand::Foreground(c)],
        None => seq![],
    }) + (match style.bg {
        Some(c) => seq![StyleCommand::Background(c)],
        None => seq![],
    }) + (if style.bold {
        seq![StyleCommand::Bold]
    } else {
        seq![]
    }) + (if style.underline {
        seq![StyleCommand::Underline]
    } else {
        seq![]
    }) + (if style.italic {
        seq![StyleCommand::Italic]
    } else {
        seq![]
    })
}

/// The commands for a style start with a colour reset and ask for exactly what the
/// style sets: a foreground colour `c` exactly when the style's foreground is `c`,
/// likewise the background, and bold, underline and italic exactly when the style
/// has them.
pub proof fn lemma_style_commands_match_style(s: Style, c: Color)
    ensures
        style_commands_spec(s).len() >= 1,
        style_commands_spec(s)[0] == StyleCommand::ResetColor,
        style_commands_spec(s).contains(StyleCommand::Foreground(c)) <==> s.fg == Some(c),
        style_commands_spec(s).contains(StyleCommand::Background(c)) <==> s.bg == Some(c),
        style_commands_spec(s).contains(StyleCommand::Bold) <==> s.bold,
        style_commands_spec(s).contains(StyleCommand::Underline) <==> s.underline,
        style_commands_spec(s).contains(StyleCommand::Italic) <==> s.italic,
{
    let cmds = style_commands_spec(s);
    let f: Seq<StyleCommand> = match s.fg {
        Some(c) => seq![StyleCommand::Foreground(c)],
        None => seq![],
    };
    let b: Seq<StyleCommand> = match s.bg {
        Some(c) => seq![StyleCommand::Background(c)],
        None => seq![],
    };
    let bo: Seq<StyleCommand> = if s.bold { seq![StyleCommand::Bold] } else { seq![] };
    let u: Seq<StyleCommand> = if s.underline { seq![StyleCommand::Underline] } else { seq![] };
    let it: Seq<StyleCommand> = if s.italic { seq![StyleCommand::Italic] } else { seq![] };
    let parts = seq![StyleCommand::ResetColor] + f + b + bo + u + it;
    assert(cmds =~= parts);
    let n0 = 1int;
    let n1 = n0 + f.len();
    let n2 = n1 + b.len();
    let n3 = n2 + bo.len();
    let n4 = n3 + u.len();
    assert forall|i: int| 0 <= i < cmds.len() implies (
        (cmds[i] == StyleCommand::Foreground(c) ==> s.fg == Some(c))
        && (cmds[i] == StyleCommand::Background(c) ==> s.bg == Some(c))
        && (cmds[i] == StyleCommand::Bold ==> s.bold)
        && (cmds[i] == StyleCommand::Underline ==> s.underline)
        && (cmds[i] == StyleCommand::Italic ==> s.italic)
    ) by {
        if i < n0 {
            assert(cmds[i] == StyleCommand::ResetColor);
        } else if i < n1 {
            assert(cmds[i] == f[i - n0]);
        } else if i < n2 {
            assert(cmds[i] == b[i - n1]);
        } else if i < n3 {
            assert(cmds[i] == bo[i - n2]);
        } else if i < n4 {
            assert(cmds[i] == u[i - n3]);
        } else {
            assert(cmds[i] == it[i - n4]);
        }
    }
    if s.fg == Some(c) {
        assert(cmds[n0] == StyleCommand::Foreground(c));
    }
    if s.bg == Some(c) {
        assert(cmds[n1] == StyleCommand::Background(c));
    }
    if s.bold {
        assert(cmds[n2] == StyleCommand::Bold);
    }
    if s.underline {
        assert(cmds[n3] == StyleCommand::Underline);
    }
    if s.italic {
        assert(cmds[n4] == StyleCommand::Italic);
    }
}

/// The terminal commands that apply `style`: a colour reset followed by every colour
/// and attribute the style sets.
pub fn style_commands(style: Style) -> (r: Vec<StyleCommand>)
    ensures
        r@ == style_commands_spec(style),
{
    let mut r: Vec<StyleCommand> = Vec::new();
    r.push(StyleCommand::ResetColor);
    if let Some(c) = style.fg {
        r.push(StyleCommand::Foreground(c));
    }
    if let Some(c) = style.bg {
        r.push(StyleCommand::Background(c));
    }
    if style.bold {
        r.push(StyleCommand::Bold);
    }
    if style.underline {
        r.push(StyleCommand::Underline);
    }
    if style.italic {
        r.push(StyleCommand::Italic);
    }
    r
}

} // verus!
