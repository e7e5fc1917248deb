//! Horizontal progress bar widget.

use vstd::prelude::*;
use vstd::string::StringExecFns;
use crate::buffer::{Buffer, put_all, unchanged_outside};
use crate::geometry::Rect;
use crate::style::{Color, Span, Style, plain_style, string_chars};
use crate::widget::Widget;
use crate::widget::text::{StyledChar, Text, chars_in_style, line_writes, span_items};

verus! {

/// The decimal digit character for `d`.
pub open spec fn digit_char(d: int) -> char {
    if d == 0 {
        '0'
    } else if d == 1 {
        '1'
    } else if d == 2 {
        '2'
    } else if d == 3 {
        '3'
    } else if d == 4 {
        '4'
    } else if d == 5 {
        '5'
    } else if d == 6 {
        '6'
    } else if d == 7 {
        '7'
    } else if d == 8 {
        '8'
    } else {
        '9'
    }
}

/// The decimal representation of `n`, without leading zeros.
pub open spec fn decimal(n: nat) -> Seq<char>
    decreases n,
{
    if n < 10 {
        seq![digit_char(n as int)]
    } else {
        decimal(n / 10).push(digit_char((n % 10) as int))
    }
}

/// The number a string of decimal digits stands for.
pub open spec fn digits_value(s: Seq<char>) -> int
    decreases s.len(),
{
    if s.len() == 0 {
        0
    } else {
        digits_value(s.drop_last()) * 10 + (s.last() as int - '0' as int)
    }
}

/// The decimal representation of `n` is a non-empty string of digits without a
/// leading zero (other than `0` itself) that stands for `n`.
pub proof fn lemma_decimal_reads_back(n: nat)
    ensures
        decimal(n).len() >= 1,
        forall|i: int| 0 <= i < decimal(n).len() ==> '0' <= #[trigger] decimal(n)[i] <= '9',
        n > 0 ==> decimal(n)[0] != '0',
        digits_value(decimal(n)) == n,
    decreases n,
{
    if n < 10 {
        let d = decimal(n);
        assert(d.drop_last() =~= Seq::<char>::empty());
        assert(digits_value(Seq::<char>::empty()) == 0);
        assert(d.last() as int - '0' as int == n);
    } else {
        lemma_decimal_reads_back(n / 10);
        let prefix = decimal(n / 10);
        let d = decimal(n);
        assert(d == prefix.push(digit_char((n % 10) as int)));
        assert(d.drop_last() =~= prefix);
        assert(n / 10 > 0);
        assert(d[0] == prefix[0]);
        assert(digit_char((n % 10) as int) as int - '0' as int == n % 10);
        assert(n == (n / 10) * 10 + n % 10) by (nonlinear_arith);
        assert forall|i: int| 0 <= i < d.len() implies '0' <= #[trigger] d[i] <= '9' by {
            if i < prefix.len() {
                assert(d[i] == prefix[i]);
            }
        }
    }
}

/// `s` repeated `n` times.
pub open spec fn repeat(s: Seq<char>, n: nat) -> Seq<char>
    decreases n,
{
    if n == 0 {
        Seq::empty()
    } else {
        repeat(s, (n - 1) as nat) + s
    }
}

/// The label after the bar: ` P% (C/T)` with the percentage rounded down when the
/// total is known and positive, ` 0% (0/0)` for a total of zero, and ` C items`
/// when the total is unknown.
pub open spec fn progress_label(current: nat, total: Option<usize>) -> Seq<char> {
    match total {
        Some(t) => if t > 0 {
            seq![' '] + decimal(current * 100 / (t as nat)) + seq!['%', ' ', '('] + decimal(current)
                + seq!['/'] + decimal(t as nat) + seq![')']
        } else {
            seq![' ', '0', '%', ' ', '(', '0', '/', '0', ')']
        },
        None => seq![' '] + decimal(current) + seq![' ', 'i', 't', 'e', 'm', 's'],
    }
}

/// The number of columns between the brackets: what the area's width leaves after
/// the two brackets and the label, or zero.
pub open spec fn bar_width(width: u16, label_len: int) -> int {
    if width >= 2 + label_len {
        width - 2 - label_len
    } else {
        0
    }
}

/// The number of filled columns: the bar's share of the width for `current` out of
/// `total`, rounded down and at most the bar's width; none without a positive total.
pub open spec fn filled_columns(bar: int, current: nat, total: Option<usize>) -> int {
    match total {
        Some(t) => if t > 0 && bar > 0 {
            if bar * current / (t as int) <= bar {
                bar * current / (t as int)
            } else {
                bar
            }
        } else {
            0
        },
        None => 0,
    }
}

/// More progress never fills fewer columns: the filled part of a bar only grows
/// as the count grows towards the same total.
pub proof fn lemma_filled_monotone(bar: int, c1: nat, c2: nat, total: Option<usize>)
    requires
        c1 <= c2,
    ensures
        filled_columns(bar, c1, total) <= filled_columns(bar, c2, total),
{
    if let Some(t) = total {
        if t > 0 && bar > 0 {
            assert(bar * c1 <= bar * c2) by (nonlinear_arith)
                requires
                    bar > 0,
                    c1 <= c2,
            ;
            vstd::arithmetic::div_mod::lemma_div_is_ordered(bar * c1, bar * c2, t as int);
        }
    }
}

/// The filled part stays within the bar, and fills all of it once the count reaches
/// a positive total.
pub proof fn lemma_filled_bounds(bar: int, current: nat, total: Option<usize>)
    requires
        bar >= 0,
    ensures
        0 <= filled_columns(bar, current, total) <= bar,
        (total matches Some(t) && t > 0 && current >= t) ==> filled_columns(bar, current, total) == bar,
{
    if let Some(t) = total {
        if t > 0 && bar > 0 {
            assert(bar * current >= 0) by (nonlinear_arith)
                requires
                    bar > 0,
            ;
            vstd::arithmetic::div_mod::lemma_div_pos_is_pos(bar * current, t as int);
            if current >= t {
                assert(bar * (t as int) <= bar * current) by (nonlinear_arith)
                    requires
                        bar > 0,
                        current >= t,
                ;
                vstd::arithmetic::div_mod::lemma_div_is_ordered(bar * (t as int), bar * current, t as int);
                vstd::arithmetic::div_mod::lemma_div_by_multiple(bar, t as int);
            }
        }
    }
}

/// The green style of the filled part of the bar.
pub open spec fn green_style() -> Style {
    Style { fg: Some(Color::Green), bg: None, bold: false, underline: false, italic: false }
}

/// The styled characters of a bar of width `bar` with `fill` filled columns: `[`,
/// green `█`s, `░`s, `]`.
pub open spec fn bar_items(bar: int, fill: int) -> Seq<StyledChar> {
    chars_in_style(seq!['['], plain_style()) + chars_in_style(repeat(seq!['█'], fill as nat), green_style())
        + chars_in_style(repeat(seq!['░'], (bar - fill) as nat), plain_style()) + chars_in_style(
        seq![']'],
        plain_style(),
    )
}

/// The styled characters of the whole line in an area `width` columns wide: the
/// bar when it has room, then the label.
pub open spec fn progress_items(current: nat, total: Option<usize>, width: u16) -> Seq<StyledChar> {
    let label = progress_label(current, total);
    let bar = bar_width(width, label.len() as int);
    let fill = filled_columns(bar, current, total);
    if bar > 0 {
        bar_items(bar, fill) + chars_in_style(label, plain_style())
    } else {
        chars_in_style(label, plain_style())
    }
}

/// The text of a decimal digit.
fn digit_str(d: u128) -> (r: &'static str)
    requires
        d < 10,
    ensures
        r@ == seq![digit_char(d as int)],
{
    if d == 0 {
        proof {
            reveal_strlit("0");
        }
        "0"
    } else if d == 1 {
        proof {
            reveal_strlit("1");
        }
        "1"
    } else if d == 2 {
        proof {
            reveal_strlit("2");
        }
        "2"
    } else if d == 3 {
        proof {
            reveal_strlit("3");
        }
        "3"
    } else if d == 4 {
        proof {
            reveal_strlit("4");
        }
        "4"
    } else if d == 5 {
        proof {
            reveal_strlit("5");
        }
        "5"
    } else if d == 6 {
        proof {
            reveal_strlit("6");
        }
        "6"
    } else if d == 7 {
        proof {
            reveal_strlit("7");
        }
        "7"
    } else if d == 8 {
        proof {
            reveal_strlit("8");
        }
        "8"
    } else {
        proof {
            reveal_strlit("9");
        }
        "9"
    }
}

/// Appends the decimal representation of `n`.
pub fn push_decimal(s: &mut String, n: u128)
    ensures
        final(s)@ == old(s)@ + decimal(n as nat),
    decreases n,
{
    if n >= 10 {
        push_decimal(s, n / 10);
    }
    s.append(digit_str(n % 10));
    proof {
        if n < 10 {
            assert(old(s)@ + seq![digit_char(n as int)] =~= old(s)@ + decimal(n as nat));
        } else {
            assert(old(s)@ + decimal((n / 10) as nat) + seq![digit_char((n % 10) as int)] =~= old(
                s,
            )@ + decimal(n as nat));
        }
    }
}

/// `unit` repeated `n` times.
pub fn repeat_str(unit: &str, n: usize) -> (r: String)
    ensures
        r@ == repeat(unit@, n as nat),
{
    let mut s = String::new();
    let mut i: usize = 0;
    while i < n
        invariant
            i <= n,
            s@ == repeat(unit@, i as nat),
        decreases n - i,
    {
        s.append(unit);
        i = i + 1;
    }
    s
}

/// The label shown after the bar.
pub fn label_text(current: usize, total: Option<usize>) -> (r: String)
    ensures
        r@ == progress_label(current as nat, total),
{
    let mut label = String::new();
    match total {
        Some(t) => {
            if t > 0 {
                let pct: u128 = (current as u128) * 100 / (t as u128);
                proof {
                    reveal_strlit(" ");
                    reveal_strlit("% (");
                    reveal_strlit("/");
                    reveal_strlit(")");
                }
                label.append(" ");
                push_decimal(&mut label, pct);
                label.append("% (");
                push_decimal(&mut label, current as u128);
                label.append("/");
                push_decimal(&mut label, t as u128);
                label.append(")");
            } else {
                proof {
                    reveal_strlit(" 0% (0/0)");
                }
                label.append(" 0% (0/0)");
            }
        },
        None => {
            proof {
                reveal_strlit(" ");
                reveal_strlit(" items");
            }
            label.append(" ");
            push_decimal(&mut label, current as u128);
            label.append(" items");
        },
    }
    proof {
        assert(label@ =~= progress_label(current as nat, total));
    }
    label
}

/// A horizontal progress bar rendered as `[████░░░░] 50% (5/10)`.
///
/// When `total` is `None` (e.g. for an iterator with an unknown length) the label
/// shows the item count instead of a percentage.
pub struct ProgressBar {
    current: usize,
    total: Option<usize>,
}

impl Default for ProgressBar {
    fn default() -> (r: ProgressBar)
        ensures
            r.spec_current() == 0,
            r.spec_total() is None,
    {
        Self::new(0, None)
    }
}

impl ProgressBar {
    /// The number of items done.
    pub closed spec fn spec_current(&self) -> usize {
        self.current
    }

    /// The number of items in all, when known.
    pub closed spec fn spec_total(&self) -> Option<usize> {
        self.total
    }

    /// A bar for `current` items done out of `total`.
    pub fn new(current: usize, total: Option<usize>) -> (r: ProgressBar)
        ensures
            r.spec_current() == current,
            r.spec_total() == total,
    {
        ProgressBar { current, total }
    }

}

/// The label is short: at most 40 characters for one-word numbers.
proof fn lemma_label_short(current: nat, total: Option<usize>)
    requires
        current <= usize::MAX,
    ensures
        progress_label(current, total).len() < 100,
{
    lemma_decimal_len(current);
    match total {
        Some(t) => {
            if t > 0 {
                lemma_decimal_len(t as nat);
                assert(current * 100 / (t as nat) <= current * 100) by (nonlinear_arith)
                    requires
                        t > 0,
                ;
                lemma_decimal_len(current * 100 / (t as nat));
            }
        },
        None => {},
    }
}

/// A number below `10^k` has at most `k` digits; every number fitting in 128 bits
/// has at most 39.
proof fn lemma_decimal_len(n: nat)
    requires
        n <= 0xffff_ffff_ffff_ffff * 100,
    ensures
        decimal(n).len() <= 25,
{
    reveal_with_fuel(pow10, 26);
    assert(pow10(25) == 10_000_000_000_000_000_000_000_000nat);
    lemma_decimal_len_bound(n, 25);
}

proof fn lemma_decimal_len_bound(n: nat, k: nat)
    requires
        k >= 1,
        n < pow10(k),
    ensures
        decimal(n).len() <= k,
    decreases k,
{
    if n >= 10 {
        assert(k >= 2) by {
            if k == 1 {
                assert(pow10(1) == 10 * pow10(0));
            }
        }
        assert(n / 10 < pow10((k - 1) as nat)) by {
            assert(pow10(k) == 10 * pow10((k - 1) as nat));
        }
        lemma_decimal_len_bound(n / 10, (k - 1) as nat);
    }
}

/// Ten to the power `k`.
pub open spec fn pow10(k: nat) -> nat
    decreases k,
{
    if k == 0 {
        1
    } else {
        10 * pow10((k - 1) as nat)
    }
}

impl Widget for ProgressBar {
    /// The bar and its label on the top row, clipped to the area's width; nothing
    /// in an empty area.
    open spec fn drawn(&self, area: Rect, before: Buffer, after: Buffer) -> bool {
        &&& after.spec_area() == before.spec_area()
        &&& after.spec_animated() == before.spec_animated()
        &&& after@ == (if area.width == 0 || area.height == 0 {
            before@
        } else {
            put_all(
                before.spec_area(),
                before@,
                line_writes(
                    progress_items(self.spec_current() as nat, self.spec_total(), area.width),
                    area.x as int,
                    area.y,
                    area.x + area.width,
                ),
            )
        })
    }

    /// Draws the bar and its label on the top row of `area`, clipped to its width;
    /// nothing in an empty area.
    fn render(&self, area: Rect, buf: &mut Buffer)
        ensures
            final(buf)@ == (if area.width == 0 || area.height == 0 {
                old(buf)@
            } else {
                put_all(
                    old(buf).spec_area(),
                    old(buf)@,
                    line_writes(
                        progress_items(self.spec_current() as nat, self.spec_total(), area.width),
                        area.x as int,
                        area.y,
                        area.x + area.width,
                    ),
                )
            }),
    {
        if area.width == 0 || area.height == 0 {
            proof {
                crate::buffer::lemma_unchanged_refl(buf@, buf.spec_area(), area);
            }
            return;
        }
        let label = label_text(self.current, self.total);
        let label_width = string_chars(label.as_str()).len();
        proof {
            assert(label_width < 100) by {
                lemma_label_short(self.current as nat, self.total);
            }
        }
        let bar_width: usize = area.width.saturating_sub(2 + label_width as u16) as usize;
        let fill_count: usize = match self.total {
            Some(total) => if total > 0 && bar_width > 0 {
                proof {
                    assert((bar_width as int) * (self.current as int) <= 0xffff * 0xffff_ffff_ffff_ffff)
                        by (nonlinear_arith)
                        requires
                            bar_width <= 0xffff,
                            self.current <= 0xffff_ffff_ffff_ffff,
                    ;
                }
                let share: u128 = (bar_width as u128) * (self.current as u128) / (total as u128);
                if share <= bar_width as u128 {
                    share as usize
                } else {
                    bar_width
                }
            } else {
                0
            },
            None => 0,
        };
        let empty_count = bar_width - fill_count;
        let green = Style { fg: Some(Color::Green), ..Style::default() };
        let mut spans: Vec<Span> = Vec::new();
        let ghost label_view = label@;
        let ghost items = progress_items(self.current as nat, self.total, area.width);
        proof {
            reveal_strlit("[");
            reveal_strlit("]");
            reveal_strlit("█");
            reveal_strlit("░");
            assert(span_items(spans@) =~= Seq::<StyledChar>::empty());
        }
        if bar_width > 0 {
            let fill_text = repeat_str("█", fill_count);
            let empty_text = repeat_str("░", empty_count);
            let ghost fill_view = fill_text@;
            let ghost empty_view = empty_text@;
            spans.push(Span::raw("["));
            proof {
                assert(spans@.drop_last() =~= Seq::<Span>::empty());
                assert(span_items(spans@) =~= chars_in_style(seq!['['], plain_style()));
            }
            let ghost p1 = span_items(spans@);
            let ghost q1 = spans@;
            spans.push(Span::styled(fill_text, green));
            proof {
                assert(spans@.drop_last() =~= q1);
                assert(spans@.last().content@ == fill_view);
                assert(spans@.last().style == green_style());
                assert(span_items(spans@) =~= p1 + chars_in_style(fill_view, green_style()));
            }
            let ghost p2 = span_items(spans@);
            let ghost q2 = spans@;
            spans.push(Span::raw(empty_text));
            proof {
                assert(spans@.drop_last() =~= q2);
                assert(spans@.last().content@ == empty_view);
                assert(span_items(spans@) =~= p2 + chars_in_style(empty_view, plain_style()));
            }
            let ghost p3 = span_items(spans@);
            let ghost q3 = spans@;
            spans.push(Span::raw("]"));
            proof {
                assert(spans@.drop_last() =~= q3);
                assert(spans@.last().content@ == seq![']']);
                assert("█"@ == seq!['█']);
                assert("░"@ == seq!['░']);
                assert(fill_view == repeat(seq!['█'], fill_count as nat));
                assert(empty_view == repeat(seq!['░'], empty_count as nat));
                assert(span_items(spans@) =~= p3 + chars_in_style(seq![']'], plain_style()));
                assert(span_items(spans@) =~= bar_items(bar_width as int, fill_count as int));
            }
        }
        let ghost before_label = span_items(spans@);
        let ghost q4 = spans@;
        spans.push(Span::raw(label));
        proof {
            assert(spans@.drop_last() =~= q4);
            assert(span_items(spans@) =~= before_label + chars_in_style(label_view, plain_style()));
            assert(span_items(spans@) =~= items);
        }
        let text = Text::from(spans);
        text.render(area, buf);
    }
}

} // verus!
