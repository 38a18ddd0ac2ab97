//! Where the parts of the overlay window stand.
use crate::binary32::{num, number, Binary32, ZERO_BITS};
use crate::renderer::color::{opaque, premultiplied, rgb, with_alpha, Color};
use crate::renderer::geometry::{Pos2, Rect, Vec2, TWO_BITS};
use crate::renderer::shapes::{add_shape, views, Shape, ShapeView, Stroke};
use vstd::prelude::*;

verus! {

/// Bit pattern of 26: the height of the title bar.
pub const BAR_HEIGHT_BITS: u32 = 0x41d0_0000;

/// Bit pattern of 2: the space at the edges of the window.
pub const WINDOW_PAD_BITS: u32 = 0x4000_0000;

/// Bit pattern of 14: the distance of the close button from the right.
pub const CLOSE_PLACE_BITS: u32 = 0x4160_0000;

/// Bit pattern of 40: the distance of the minimize button from the right.
pub const MINIMIZE_PLACE_BITS: u32 = 0x4220_0000;

/// Bit pattern of 66: the distance of the settings button from the right.
pub const GEAR_PLACE_BITS: u32 = 0x4284_0000;

/// Bit pattern of 22: the size of a button.
pub const BUTTON_SIZE_BITS: u32 = 0x41b0_0000;

/// Bit pattern of 10: less height shows no content.
pub const SMALLEST_CONTENT_BITS: u32 = 0x4120_0000;

/// Bit pattern of 20: the size of the resize handle.
pub const HANDLE_SIZE_BITS: u32 = 0x41a0_0000;

/// Bit pattern of 5: the distance of the lines of the resize handle.
pub const HANDLE_STEP_BITS: u32 = 0x40a0_0000;

/// Bit pattern of 260: the width of the settings panel.
pub const PANEL_WIDTH_BITS: u32 = 0x4382_0000;

/// Bit pattern of 8: the width that the settings panel leaves.
pub const PANEL_MARGIN_BITS: u32 = 0x4100_0000;

/// Bit pattern of 4: the space around the settings panel.
pub const PANEL_GAP_BITS: u32 = 0x4080_0000;

/// Bit pattern of 40: the smallest height of the settings panel.
pub const PANEL_MIN_HEIGHT_BITS: u32 = 0x4220_0000;

/// Bit pattern of 12: half the length of a grip line.
pub const GRIP_HALF_BITS: u32 = 0x4140_0000;

/// Bit pattern of 3.5: the distance of the grip lines.
pub const GRIP_STEP_BITS: u32 = 0x4060_0000;

/// Bit pattern of 5: half the width of the chevron.
pub const CHEVRON_HALF_BITS: u32 = 0x40a0_0000;

/// Bit pattern of 1.75: half the height of the chevron.
pub const CHEVRON_RISE_BITS: u32 = 0x3fe0_0000;

/// Bit pattern of 2: the width of the accent line.
pub const THICK_LINE_BITS: u32 = 0x4000_0000;

/// Bit pattern of 1.5: the width of grips and chevrons.
pub const MEDIUM_LINE_BITS: u32 = 0x3fc0_0000;

/// Bit pattern of 1: the width of the divider.
pub const THIN_LINE_BITS: u32 = 0x3f80_0000;

/// Bit pattern of 0.28: the size of the stopped text as a share of the height.
pub const STOPPED_SHARE_BITS: u32 = 0x3e8f_5c29;

/// Bit pattern of 14: the smallest stopped text.
pub const STOPPED_MIN_BITS: u32 = 0x4160_0000;

/// Bit pattern of 42: the largest stopped text.
pub const STOPPED_MAX_BITS: u32 = 0x4228_0000;

/// Bit pattern of 14: how far left of the corner a close mark stands.
pub const CLOSE_INSET_X_BITS: u32 = 0x4160_0000;

/// Bit pattern of 12: how far below the corner a close mark stands, and its radius.
pub const CLOSE_INSET_Y_BITS: u32 = 0x4140_0000;

/// The lines between parts.
pub open spec fn border_gray() -> Color {
    opaque(26, 26, 26)
}

/// The lines between parts.
pub fn border_color() -> (r: Color)
    ensures
        r == border_gray(),
{
    rgb(26, 26, 26)
}

/// Faint labels.
pub open spec fn dim_gray() -> Color {
    opaque(90, 90, 90)
}

/// Faint labels.
pub fn dim_color() -> (r: Color)
    ensures
        r == dim_gray(),
{
    rgb(90, 90, 90)
}

/// Ordinary labels.
pub open spec fn label_gray() -> Color {
    opaque(140, 140, 140)
}

/// Ordinary labels.
pub fn label_color() -> (r: Color)
    ensures
        r == label_gray(),
{
    rgb(140, 140, 140)
}

/// The places of the parts of the window.
#[derive(Debug, Clone, Copy, PartialEq, Eq, Structural)]
pub struct WindowLayout {
    /// The title bar.
    pub bar: Rect,
    pub close_button: Rect,
    pub minimize_button: Rect,
    pub gear_button: Rect,
    pub content: Rect,
    /// The radius of the round end of the content.
    pub cap_radius: Binary32,
    /// Whether the content is high enough to be shown.
    pub shows_content: bool,
    /// The size of the text shown while stopped.
    pub stopped_text_size: Binary32,
    pub resize_handle: Rect,
    /// The settings panel.
    pub panel: Rect,
}

/// The button at a distance from the right end of the title bar.
pub open spec fn button_at(bar: Rect, place: Binary32) -> Rect {
    let size = num(BUTTON_SIZE_BITS);
    Rect::around(Pos2 { x: bar.max.x.difference(place), y: bar.middle().y }, Vec2 { x: size, y: size })
}

/// The title bar.
pub open spec fn title_bar(screen: Rect) -> Rect {
    Rect {
        min: Pos2 { x: screen.min.x.sum(num(WINDOW_PAD_BITS)), y: screen.min.y },
        max: Pos2 {
            x: screen.max.x.difference(num(WINDOW_PAD_BITS)),
            y: screen.min.y.sum(num(BAR_HEIGHT_BITS)),
        },
    }
}

/// The content below the title bar.
pub open spec fn content_of(screen: Rect) -> Rect {
    let pad = num(WINDOW_PAD_BITS);
    Rect {
        min: Pos2 { x: screen.min.x.sum(pad), y: screen.min.y.sum(num(BAR_HEIGHT_BITS)) },
        max: Pos2 { x: screen.max.x.difference(pad), y: screen.max.y.difference(pad) },
    }
}

/// The settings panel at the right.
pub open spec fn panel_of(screen: Rect) -> Rect {
    let gap = num(PANEL_GAP_BITS);
    let width = num(PANEL_WIDTH_BITS).smaller(screen.span_x().difference(num(PANEL_MARGIN_BITS)));
    let top = screen.min.y.sum(num(BAR_HEIGHT_BITS)).sum(gap);
    let height = screen.max.y.difference(top).difference(gap).larger(num(PANEL_MIN_HEIGHT_BITS));
    Rect::sized(Pos2 { x: screen.max.x.difference(width).difference(gap), y: top }, Vec2 { x: width, y: height })
}

/// The layout of the window.
pub open spec fn window_of(screen: Rect) -> WindowLayout {
    let bar = title_bar(screen);
    let content = content_of(screen);
    let handle = num(HANDLE_SIZE_BITS);
    WindowLayout {
        bar,
        close_button: button_at(bar, num(CLOSE_PLACE_BITS)),
        minimize_button: button_at(bar, num(MINIMIZE_PLACE_BITS)),
        gear_button: button_at(bar, num(GEAR_PLACE_BITS)),
        content,
        cap_radius: content.span_y().quotient(num(TWO_BITS)),
        shows_content: num(SMALLEST_CONTENT_BITS).below(content.span_y()),
        stopped_text_size: content.span_y().product(num(STOPPED_SHARE_BITS)).clamped(
            num(STOPPED_MIN_BITS),
            num(STOPPED_MAX_BITS),
        ),
        resize_handle: Rect {
            min: Pos2 { x: content.max.x.difference(handle), y: content.max.y.difference(handle) },
            max: content.max,
        },
        panel: panel_of(screen),
    }
}

fn place_button(bar: &Rect, place: Binary32) -> (r: Rect)
    ensures
        r == button_at(*bar, place),
{
    let size = number(BUTTON_SIZE_BITS);
    Rect::from_center_size(Pos2 { x: bar.max.x.minus(place), y: bar.center().y }, Vec2 { x: size, y: size })
}

fn place_panel(screen: &Rect) -> (r: Rect)
    ensures
        r == panel_of(*screen),
{
    let gap = number(PANEL_GAP_BITS);
    let width = number(PANEL_WIDTH_BITS).min(screen.width().minus(number(PANEL_MARGIN_BITS)));
    let top = screen.min.y.plus(number(BAR_HEIGHT_BITS)).plus(gap);
    let height = screen.max.y.minus(top).minus(gap).max(number(PANEL_MIN_HEIGHT_BITS));
    Rect::from_min_size(Pos2 { x: screen.max.x.minus(width).minus(gap), y: top }, Vec2 { x: width, y: height })
}

fn line(start: Pos2, end: Pos2, width: Binary32, color: Color) -> (r: Shape)
    ensures
        r@ == (ShapeView::LineSegment { start, end, stroke: Stroke { width, color } }),
{
    Shape::LineSegment { start, end, stroke: Stroke { width, color } }
}

impl WindowLayout {
    /// The layout of the window.
    pub fn new(screen: Rect) -> (r: Self)
        ensures
            r == window_of(screen),
    {
        let pad = number(WINDOW_PAD_BITS);
        let bar = Rect {
            min: Pos2 { x: screen.min.x.plus(pad), y: screen.min.y },
            max: Pos2 { x: screen.max.x.minus(pad), y: screen.min.y.plus(number(BAR_HEIGHT_BITS)) },
        };
        let content = Rect {
            min: Pos2 { x: screen.min.x.plus(pad), y: screen.min.y.plus(number(BAR_HEIGHT_BITS)) },
            max: Pos2 { x: screen.max.x.minus(pad), y: screen.max.y.minus(pad) },
        };
        let handle = number(HANDLE_SIZE_BITS);
        WindowLayout {
            bar,
            close_button: place_button(&bar, number(CLOSE_PLACE_BITS)),
            minimize_button: place_button(&bar, number(MINIMIZE_PLACE_BITS)),
            gear_button: place_button(&bar, number(GEAR_PLACE_BITS)),
            content,
            cap_radius: content.height().over(number(TWO_BITS)),
            shows_content: number(SMALLEST_CONTENT_BITS).lt(content.height()),
            stopped_text_size: content.height().times(number(STOPPED_SHARE_BITS)).clamp(
                number(STOPPED_MIN_BITS),
                number(STOPPED_MAX_BITS),
            ),
            resize_handle: Rect {
                min: Pos2 { x: content.max.x.minus(handle), y: content.max.y.minus(handle) },
                max: content.max,
            },
            panel: place_panel(&screen),
        }
    }

    /// The accent line above and the divider below the title bar.
    pub fn bar_lines(&self, alpha: u8) -> (r: Vec<Shape>)
        ensures
            views(r@) == seq![
                ShapeView::LineSegment {
                    start: self.bar.min,
                    end: Pos2 { x: self.bar.max.x, y: self.bar.min.y },
                    stroke: Stroke { width: num(THICK_LINE_BITS), color: premultiplied(220, 45, 45, alpha) },
                },
                ShapeView::LineSegment {
                    start: Pos2 { x: self.bar.min.x, y: self.bar.max.y },
                    end: Pos2 { x: self.bar.max.x, y: self.bar.max.y },
                    stroke: Stroke { width: num(THIN_LINE_BITS), color: premultiplied(26, 26, 26, alpha) },
                },
            ],
    {
        let mut shapes: Vec<Shape> = Vec::new();
        let accent = with_alpha(rgb(220, 45, 45), alpha);
        add_shape(
            &mut shapes,
            line(self.bar.min, Pos2 { x: self.bar.max.x, y: self.bar.min.y }, number(THICK_LINE_BITS), accent),
        );
        add_shape(
            &mut shapes,
            line(
                Pos2 { x: self.bar.min.x, y: self.bar.max.y },
                Pos2 { x: self.bar.max.x, y: self.bar.max.y },
                number(THIN_LINE_BITS),
                with_alpha(border_color(), alpha),
            ),
        );
        shapes
    }

    /// A grip line at a distance below the middle of the title bar.
    pub open spec fn grip_line(self, dy: Binary32, alpha: u8) -> ShapeView {
        let middle = self.bar.middle();
        let half = num(GRIP_HALF_BITS);
        ShapeView::LineSegment {
            start: Pos2 { x: middle.x.difference(half), y: middle.y.sum(dy) },
            end: Pos2 { x: middle.x.sum(half), y: middle.y.sum(dy) },
            stroke: Stroke { width: num(MEDIUM_LINE_BITS), color: premultiplied(90, 90, 90, alpha) },
        }
    }

    fn place_grip_line(&self, dy: Binary32, color: Color) -> (r: Shape)
        ensures
            r@ == (ShapeView::LineSegment {
                start: Pos2 {
                    x: self.bar.middle().x.difference(num(GRIP_HALF_BITS)),
                    y: self.bar.middle().y.sum(dy),
                },
                end: Pos2 { x: self.bar.middle().x.sum(num(GRIP_HALF_BITS)), y: self.bar.middle().y.sum(dy) },
                stroke: Stroke { width: num(MEDIUM_LINE_BITS), color },
            }),
    {
        let middle = self.bar.center();
        let half = number(GRIP_HALF_BITS);
        line(
            Pos2 { x: middle.x.minus(half), y: middle.y.plus(dy) },
            Pos2 { x: middle.x.plus(half), y: middle.y.plus(dy) },
            number(MEDIUM_LINE_BITS),
            color,
        )
    }

    /// The three grip lines in the middle of the title bar.
    pub fn grip_lines(&self, alpha: u8) -> (r: Vec<Shape>)
        ensures
            views(r@) == seq![
                self.grip_line(num(GRIP_STEP_BITS).opposite(), alpha),
                self.grip_line(num(ZERO_BITS), alpha),
                self.grip_line(num(GRIP_STEP_BITS), alpha),
            ],
    {
        let color = with_alpha(dim_color(), alpha);
        let mut shapes: Vec<Shape> = Vec::new();
        add_shape(&mut shapes, self.place_grip_line(number(GRIP_STEP_BITS).negate(), color));
        add_shape(&mut shapes, self.place_grip_line(number(ZERO_BITS), color));
        add_shape(&mut shapes, self.place_grip_line(number(GRIP_STEP_BITS), color));
        shapes
    }

    /// The chevron on the minimize button: its tip is above its ends when
    /// minimized, and below them otherwise.
    pub open spec fn chevron(self, minimized: bool, alpha: u8) -> Seq<ShapeView> {
        let middle = self.minimize_button.middle();
        let half = num(CHEVRON_HALF_BITS);
        let above = middle.y.difference(num(CHEVRON_RISE_BITS));
        let below = middle.y.sum(num(CHEVRON_RISE_BITS));
        let tip = Pos2 {
            x: middle.x,
            y: if minimized {
                above
            } else {
                below
            },
        };
        let ends = if minimized {
            below
        } else {
            above
        };
        let stroke = Stroke { width: num(MEDIUM_LINE_BITS), color: premultiplied(140, 140, 140, alpha) };
        seq![
            ShapeView::LineSegment { start: Pos2 { x: middle.x.difference(half), y: ends }, end: tip, stroke },
            ShapeView::LineSegment { start: tip, end: Pos2 { x: middle.x.sum(half), y: ends }, stroke },
        ]
    }

    /// The chevron on the minimize button.
    pub fn chevron_lines(&self, minimized: bool, alpha: u8) -> (r: Vec<Shape>)
        ensures
            views(r@) == self.chevron(minimized, alpha),
    {
        let middle = self.minimize_button.center();
        let half = number(CHEVRON_HALF_BITS);
        let above = middle.y.minus(number(CHEVRON_RISE_BITS));
        let below = middle.y.plus(number(CHEVRON_RISE_BITS));
        let (tip_y, ends) = if minimized {
            (above, below)
        } else {
            (below, above)
        };
        let tip = Pos2 { x: middle.x, y: tip_y };
        let color = with_alpha(label_color(), alpha);
        let width = number(MEDIUM_LINE_BITS);
        let mut shapes: Vec<Shape> = Vec::new();
        add_shape(&mut shapes, line(Pos2 { x: middle.x.minus(half), y: ends }, tip, width, color));
        add_shape(&mut shapes, line(tip, Pos2 { x: middle.x.plus(half), y: ends }, width, color));
        shapes
    }

    /// A diagonal line of the resize handle.
    pub open spec fn handle_line(self, i: int, alpha: u8) -> ShapeView {
        let corner = self.content.max;
        let offset = crate::arithmetic::whole(i as nat).product(num(HANDLE_STEP_BITS));
        ShapeView::LineSegment {
            start: Pos2 { x: corner.x.difference(offset), y: corner.y },
            end: Pos2 { x: corner.x, y: corner.y.difference(offset) },
            stroke: Stroke { width: num(MEDIUM_LINE_BITS), color: premultiplied(90, 90, 90, alpha) },
        }
    }

    /// The three diagonal lines of the resize handle.
    pub fn handle_lines(&self, alpha: u8) -> (r: Vec<Shape>)
        ensures
            views(r@) == Seq::new(3, |i: int| self.handle_line(i + 1, alpha)),
    {
        let corner = self.content.max;
        let color = with_alpha(dim_color(), alpha);
        let mut shapes: Vec<Shape> = Vec::new();
        let mut i: u64 = 0;
        while i < 3
            invariant
                i <= 3,
                corner == self.content.max,
                color == premultiplied(90, 90, 90, alpha),
                views(shapes@) == Seq::new(i as nat, |k: int| self.handle_line(k + 1, alpha)),
            decreases 3 - i,
        {
            i = i + 1;
            let offset = Binary32::from_u64(i).times(number(HANDLE_STEP_BITS));
            add_shape(
                &mut shapes,
                line(
                    Pos2 { x: corner.x.minus(offset), y: corner.y },
                    Pos2 { x: corner.x, y: corner.y.minus(offset) },
                    number(MEDIUM_LINE_BITS),
                    color,
                ),
            );
        }
        shapes
    }
}

/// Whether a press drags a window that has a close mark in its upper right
/// corner: everywhere but on the mark.
pub fn drags_window(pressed: bool, pointer: Option<Pos2>, viewport: Rect) -> (r: bool)
    ensures
        r == (pressed && !(pointer is Some && on_close_mark(pointer->0, viewport))),
{
    let on_mark = match pointer {
        Some(pointer) => {
            let x = viewport.max.x.minus(number(CLOSE_INSET_X_BITS));
            let y = viewport.min.y.plus(number(CLOSE_INSET_Y_BITS));
            pointer.x.minus(x).hypot(pointer.y.minus(y)).lt(number(CLOSE_INSET_Y_BITS))
        },
        None => false,
    };
    pressed && !on_mark
}

/// Whether a point lies on the close mark of a window.
pub open spec fn on_close_mark(point: Pos2, viewport: Rect) -> bool {
    let x = viewport.max.x.difference(num(CLOSE_INSET_X_BITS));
    let y = viewport.min.y.sum(num(CLOSE_INSET_Y_BITS));
    point.x.difference(x).hypotenuse(point.y.difference(y)).below(num(CLOSE_INSET_Y_BITS))
}

/// The name in the title bar.
pub fn brand(f1_display: bool) -> (r: &'static str)
    ensures
        r@ == if f1_display {
            "SIMTRACE  /  F1 OPEN HUD \u{b7} BETA"@
        } else {
            "SIMTRACE"@
        },
{
    if f1_display {
        "SIMTRACE  /  F1 OPEN HUD \u{b7} BETA"
    } else {
        "SIMTRACE"
    }
}

} // verus!
