//! The texts of the F1 display and the marks at the heads of the traces.
use crate::arithmetic::whole;
use crate::binary32::{num, number, Binary32, ONE_BITS, ZERO_BITS};
use crate::renderer::color::{dimmed, heated, hot_face, with_opacity, Color};
use crate::renderer::geometry::{between, lerp, Pos2, Rect, Vec2, TWO_BITS};
use crate::renderer::hud::{F1OpenHud, F1OpenHudCache, OpenHudReadings, OpenHudValues};
use crate::renderer::hud_layout::{
    centered_at, gear_value_position, layout_of, speed_value_position, steering_label_place,
    steering_label_position, steering_value_position, OpenHudLayout, GEAR_PLACE_BITS, SPEED_PLACE_BITS,
    STEERING_PLACE_BITS,
};
use crate::renderer::palette::{
    abs_amber, abs_amber_color, brake_colors, brake_palette, speed_colors, speed_palette, steering_white,
    steering_white_color, text_primary, text_primary_color, text_secondary, text_secondary_color,
    throttle_colors, throttle_palette, ChannelPalette,
};
use crate::renderer::time_axis::{time_mark, time_mark_text, Binary64};
use vstd::prelude::*;
use vstd::string::*;

verus! {

/// Divisions of the time axis.
pub const GRID_DIVISIONS: u64 = 4;

/// Bit pattern of 13: how far below the top of the chart the first label stands.
pub const LABEL_TOP_BITS: u32 = 0x4150_0000;

/// Bit pattern of 24: the distance between labels.
pub const LABEL_STEP_BITS: u32 = 0x41c0_0000;

/// Bit pattern of 12.5: the size of a channel label.
pub const LABEL_SIZE_BITS: u32 = 0x4148_0000;

/// Bit pattern of 14: the size of a channel value.
pub const VALUE_SIZE_BITS: u32 = 0x4160_0000;

/// Bit pattern of 0.98: the opacity of a channel label.
pub const LABEL_OPACITY_BITS: u32 = 0x3f7a_e148;

/// Bit pattern of 9: how far below the chart its time marks stand.
pub const TIME_DROP_BITS: u32 = 0x4110_0000;

/// Bit pattern of 8: the size of a time mark.
pub const TIME_SIZE_BITS: u32 = 0x4100_0000;

/// Bit pattern of 0.46: the opacity of a time mark.
pub const TIME_OPACITY_BITS: u32 = 0x3eeb_851f;

/// Bit pattern of 9: how far above a meter its value stands.
pub const METER_VALUE_RISE_BITS: u32 = 0x4110_0000;

/// Bit pattern of 13: the size of the value of a meter.
pub const METER_VALUE_SIZE_BITS: u32 = 0x4150_0000;

/// Bit pattern of 8: how far below a meter its label stands.
pub const METER_LABEL_DROP_BITS: u32 = 0x4100_0000;

/// Bit pattern of 8.5: the size of the label of a meter.
pub const METER_LABEL_SIZE_BITS: u32 = 0x4108_0000;

/// Bit pattern of 0.78: the opacity of the label of a meter.
pub const METER_LABEL_OPACITY_BITS: u32 = 0x3f47_ae14;

/// Bit pattern of 15: the size of the steering value.
pub const STEERING_SIZE_BITS: u32 = 0x4170_0000;

/// Bit pattern of 8: the size of the steering label.
pub const STEERING_LABEL_SIZE_BITS: u32 = 0x4100_0000;

/// Bit pattern of 0.58: the opacity of the steering label.
pub const STEERING_LABEL_OPACITY_BITS: u32 = 0x3f14_7ae1;

/// Bit pattern of 0.27: where the engine speed stands.
pub const RPM_PLACE_BITS: u32 = 0x3e8a_3d71;

/// Bit pattern of 0.075: the size of the engine speed.
pub const RPM_SHARE_BITS: u32 = 0x3d99_999a;

/// Bit pattern of 12: the smallest engine speed.
pub const RPM_MIN_BITS: u32 = 0x4140_0000;

/// Bit pattern of 18: the largest engine speed.
pub const RPM_MAX_BITS: u32 = 0x4190_0000;

/// Bit pattern of 0.88: the opacity of the engine speed.
pub const RPM_OPACITY_BITS: u32 = 0x3f61_47ae;

/// Bit pattern of 0.29: the size of the gear.
pub const GEAR_SHARE_BITS: u32 = 0x3e94_7ae1;

/// Bit pattern of 50: the smallest gear.
pub const GEAR_MIN_BITS: u32 = 0x4248_0000;

/// Bit pattern of 94: the largest gear.
pub const GEAR_MAX_BITS: u32 = 0x42bc_0000;

/// Bit pattern of 0.14: the size of the speed.
pub const SPEED_SHARE_BITS: u32 = 0x3e0f_5c29;

/// Bit pattern of 27: the smallest speed.
pub const SPEED_MIN_BITS: u32 = 0x41d8_0000;

/// Bit pattern of 48: the largest speed.
pub const SPEED_MAX_BITS: u32 = 0x4240_0000;

/// Bit pattern of 0.94: the opacity of the speed.
pub const SPEED_OPACITY_BITS: u32 = 0x3f70_a3d7;

/// Bit pattern of 0.82: where the unit stands.
pub const UNIT_PLACE_BITS: u32 = 0x3f51_eb85;

/// Bit pattern of 10: the size of the unit.
pub const UNIT_SIZE_BITS: u32 = 0x4120_0000;

/// Bit pattern of 0.78: the opacity of the unit.
pub const UNIT_OPACITY_BITS: u32 = 0x3f47_ae14;

/// Bit pattern of 19: how far above the lower edge the states stand.
pub const STATE_RISE_BITS: u32 = 0x4198_0000;

/// Bit pattern of 28: how far from the middle the states stand.
pub const STATE_OFFSET_BITS: u32 = 0x41e0_0000;

/// Bit pattern of 10.5: the size of a state.
pub const STATE_SIZE_BITS: u32 = 0x4128_0000;

/// Bit pattern of 0.68: the strength of the head of the speed.
pub const SPEED_HEAD_BITS: u32 = 0x3f2e_147b;

/// Bit pattern of 15: the radius of the outer light of a head.
pub const HALO_RADIUS_BITS: u32 = 0x4170_0000;

/// Bit pattern of 0.045: the outer light of a head.
pub const HALO_OPACITY_BITS: u32 = 0x3d38_51ec;

/// Bit pattern of 8: the radius of the inner light of a head.
pub const RING_RADIUS_BITS: u32 = 0x4100_0000;

/// Bit pattern of 0.15: the inner light of a head.
pub const RING_OPACITY_BITS: u32 = 0x3e19_999a;

/// Bit pattern of 4.2: the radius of the body of a head.
pub const BODY_RADIUS_BITS: u32 = 0x4086_6666;

/// Bit pattern of 0.88: the body of a head.
pub const BODY_OPACITY_BITS: u32 = 0x3f61_47ae;

/// Bit pattern of 1.8: the radius of the core of a head.
pub const CORE_RADIUS_BITS: u32 = 0x3fe6_6666;

/// Bit pattern of 0.9: how far right the shadow of a text stands.
pub const SHADOW_X_BITS: u32 = 0x3f66_6666;

/// Bit pattern of 1.15: how far below a text its shadow stands.
pub const SHADOW_Y_BITS: u32 = 0x3f93_3333;

/// Bit pattern of 0.3: the shadow of a text.
pub const SHADOW_OPACITY_BITS: u32 = 0x3e99_999a;

/// Bit pattern of 0.2: the outer spread of a text as a share of its size.
pub const OUTER_SHARE_BITS: u32 = 0x3e4c_cccd;

/// Bit pattern of 2.4: the smallest outer spread.
pub const OUTER_MIN_BITS: u32 = 0x4019_999a;

/// Bit pattern of 4: the largest outer spread.
pub const OUTER_MAX_BITS: u32 = 0x4080_0000;

/// Bit pattern of 0.05: the outer light of a text.
pub const OUTER_OPACITY_BITS: u32 = 0x3d4c_cccd;

/// Bit pattern of 0.09: the inner spread of a text as a share of its size.
pub const INNER_SHARE_BITS: u32 = 0x3db8_51ec;

/// Bit pattern of 1: the smallest inner spread.
pub const INNER_MIN_BITS: u32 = 0x3f80_0000;

/// Bit pattern of 0.14: the inner light of a text.
pub const INNER_OPACITY_BITS: u32 = 0x3e0f_5c29;

/// Bit pattern of 0.16: how much white the face of a channel text holds.
pub const FACE_HEAT_BITS: u32 = 0x3e23_d70a;

/// A filled circle.
#[derive(Debug, Clone, Copy, PartialEq, Eq, Structural)]
pub struct Circle {
    pub center: Pos2,
    pub radius: Binary32,
    pub color: Color,
}

/// The core of a head: its body and a hot point.
pub open spec fn head_core(center: Pos2, palette: ChannelPalette, opacity: Binary32) -> Seq<Circle> {
    seq![
        Circle {
            center,
            radius: num(BODY_RADIUS_BITS),
            color: dimmed(palette.body, opacity.product(num(BODY_OPACITY_BITS))),
        },
        Circle { center, radius: num(CORE_RADIUS_BITS), color: dimmed(palette.hot, opacity) },
    ]
}

/// A head with its light painted around the core.
pub open spec fn full_head(center: Pos2, palette: ChannelPalette, opacity: Binary32) -> Seq<Circle> {
    seq![
        Circle {
            center,
            radius: num(HALO_RADIUS_BITS),
            color: dimmed(palette.emission, opacity.product(num(HALO_OPACITY_BITS))),
        },
        Circle {
            center,
            radius: num(RING_RADIUS_BITS),
            color: dimmed(palette.emission, opacity.product(num(RING_OPACITY_BITS))),
        },
    ] + head_core(center, palette, opacity)
}

/// A head, if there is one. Its light is painted unless it is drawn as light
/// elsewhere.
pub open spec fn head_circles(
    head: Option<Pos2>,
    palette: ChannelPalette,
    opacity: Binary32,
    light_elsewhere: bool,
) -> Seq<Circle> {
    match head {
        Some(center) => if light_elsewhere {
            head_core(center, palette, opacity)
        } else {
            full_head(center, palette, opacity)
        },
        None => Seq::empty(),
    }
}

fn push_head_core(circles: &mut Vec<Circle>, center: Pos2, palette: &ChannelPalette, opacity: Binary32)
    ensures
        final(circles)@ == old(circles)@ + head_core(center, *palette, opacity),
{
    circles.push(
        Circle {
            center,
            radius: number(BODY_RADIUS_BITS),
            color: with_opacity(palette.body, opacity.times(number(BODY_OPACITY_BITS))),
        },
    );
    circles.push(
        Circle { center, radius: number(CORE_RADIUS_BITS), color: with_opacity(palette.hot, opacity) },
    );
    proof {
        assert(circles@ =~= old(circles)@ + head_core(center, *palette, opacity));
    }
}

fn push_head(
    circles: &mut Vec<Circle>,
    head: Option<Pos2>,
    palette: &ChannelPalette,
    opacity: Binary32,
    light_elsewhere: bool,
)
    ensures
        final(circles)@ == old(circles)@ + head_circles(head, *palette, opacity, light_elsewhere),
{
    if let Some(center) = head {
        if !light_elsewhere {
            circles.push(
                Circle {
                    center,
                    radius: number(HALO_RADIUS_BITS),
                    color: with_opacity(palette.emission, opacity.times(number(HALO_OPACITY_BITS))),
                },
            );
            circles.push(
                Circle {
                    center,
                    radius: number(RING_RADIUS_BITS),
                    color: with_opacity(palette.emission, opacity.times(number(RING_OPACITY_BITS))),
                },
            );
        }
        push_head_core(circles, center, palette, opacity);
    }
    proof {
        assert(circles@ =~= old(circles)@ + head_circles(head, *palette, opacity, light_elsewhere));
    }
}

/// A text that never changes.
#[derive(Debug, Clone, Copy, PartialEq, Eq, Structural)]
pub enum Caption {
    Brake,
    Throttle,
    Speed,
    Steering,
    Abs,
    Tc,
}

impl Caption {
    /// The text.
    pub open spec fn content(self) -> Seq<char> {
        match self {
            Caption::Brake => "BRAKE"@,
            Caption::Throttle => "THROTTLE"@,
            Caption::Speed => "SPEED"@,
            Caption::Steering => "STEERING"@,
            Caption::Abs => "ABS"@,
            Caption::Tc => "TC"@,
        }
    }

    /// The text.
    pub fn text(self) -> (r: &'static str)
        ensures
            r@ == self.content(),
    {
        match self {
            Caption::Brake => "BRAKE",
            Caption::Throttle => "THROTTLE",
            Caption::Speed => "SPEED",
            Caption::Steering => "STEERING",
            Caption::Abs => "ABS",
            Caption::Tc => "TC",
        }
    }
}

/// What a label says.
#[derive(Debug, Clone, Copy, PartialEq, Eq, Structural)]
pub enum LabelText {
    Caption(Caption),
    BrakePercent,
    ThrottlePercent,
    SpeedValue,
    SteeringAngle,
    EngineSpeed,
    Gear,
    SpeedUnit,
    /// The time at a division of the axis, counted from the oldest.
    TimeMark(u64),
}

impl LabelText {
    /// Whether the time mark, if it is one, lies on the axis.
    pub open spec fn on_axis(self) -> bool {
        self matches LabelText::TimeMark(division) ==> division <= GRID_DIVISIONS
    }

    /// What the label says, given the values to show and the length of the
    /// time axis in seconds.
    pub open spec fn content(self, values: OpenHudReadings, window: Binary64) -> Seq<char> {
        match self {
            LabelText::Caption(caption) => caption.content(),
            LabelText::BrakePercent => values.brake,
            LabelText::ThrottlePercent => values.throttle,
            LabelText::SpeedValue => values.speed,
            LabelText::SteeringAngle => values.steering,
            LabelText::EngineSpeed => values.rpm + "  RPM"@,
            LabelText::Gear => values.gear,
            LabelText::SpeedUnit => values.speed_unit,
            LabelText::TimeMark(division) => time_mark(window, division as int),
        }
    }

    /// What the label says.
    pub fn text(self, values: &OpenHudValues, window: Binary64) -> (r: String)
        requires
            self.on_axis(),
            window.is_span(),
        ensures
            r@ == self.content(values@, window),
    {
        match self {
            LabelText::Caption(caption) => caption.text().to_owned(),
            LabelText::BrakePercent => values.brake.as_str().to_owned(),
            LabelText::ThrottlePercent => values.throttle.as_str().to_owned(),
            LabelText::SpeedValue => values.speed.as_str().to_owned(),
            LabelText::SteeringAngle => values.steering.as_str().to_owned(),
            LabelText::EngineSpeed => {
                let mut text = values.rpm.as_str().to_owned();
                text.append("  RPM");
                text
            },
            LabelText::Gear => values.gear.as_str().to_owned(),
            LabelText::SpeedUnit => values.speed_unit.to_owned(),
            LabelText::TimeMark(division) => time_mark_text(window, division),
        }
    }
}

/// Where the position of a label lies in its text.
#[derive(Debug, Clone, Copy, PartialEq, Eq, Structural)]
pub enum Anchor {
    LeftCenter,
    RightCenter,
    CenterTop,
    CenterBottom,
    Center,
}

/// Whether a text glows.
#[derive(Debug, Clone, Copy, PartialEq, Eq, Structural)]
pub enum TextClass {
    Channel,
    Secondary,
}

/// How a label looks.
#[derive(Debug, Clone, Copy, PartialEq, Eq, Structural)]
pub struct LabelStyle {
    pub size: Binary32,
    pub face: Color,
    pub glow: Color,
    pub opacity: Binary32,
    pub class: TextClass,
    /// Whether the display face is used.
    pub display_face: bool,
}

/// A text on the display.
#[derive(Debug, Clone, Copy, PartialEq, Eq, Structural)]
pub struct Label {
    pub text: LabelText,
    pub position: Pos2,
    pub anchor: Anchor,
    pub style: LabelStyle,
}

/// The style of a text in the colours of a channel.
pub open spec fn channel_style(palette: ChannelPalette, size: Binary32, opacity: Binary32) -> LabelStyle {
    LabelStyle {
        size,
        face: palette.text_face,
        glow: palette.text_glow,
        opacity,
        class: TextClass::Channel,
        display_face: true,
    }
}

fn style_of_channel(palette: &ChannelPalette, size: Binary32, opacity: Binary32) -> (r: LabelStyle)
    ensures
        r == channel_style(*palette, size, opacity),
{
    LabelStyle {
        size,
        face: palette.text_face,
        glow: palette.text_glow,
        opacity,
        class: TextClass::Channel,
        display_face: true,
    }
}

/// The label and the value of a channel beside the chart.
pub open spec fn channel_labels(
    layout: OpenHudLayout,
    row: int,
    caption: Caption,
    value: LabelText,
    palette: ChannelPalette,
    opacity: Binary32,
) -> Seq<Label> {
    let y = layout.trace_rect.min.y.sum(num(LABEL_TOP_BITS)).sum(whole(row as nat).product(num(LABEL_STEP_BITS)));
    seq![
        Label {
            text: LabelText::Caption(caption),
            position: Pos2 { x: layout.left_rect.min.x, y },
            anchor: Anchor::LeftCenter,
            style: channel_style(palette, num(LABEL_SIZE_BITS), opacity.product(num(LABEL_OPACITY_BITS))),
        },
        Label {
            text: value,
            position: Pos2 { x: layout.left_rect.max.x, y },
            anchor: Anchor::RightCenter,
            style: channel_style(palette, num(VALUE_SIZE_BITS), opacity),
        },
    ]
}

fn push_channel_labels(
    labels: &mut Vec<Label>,
    layout: &OpenHudLayout,
    row: u64,
    caption: Caption,
    value: LabelText,
    palette: &ChannelPalette,
    opacity: Binary32,
)
    ensures
        final(labels)@ == old(labels)@ + channel_labels(*layout, row as int, caption, value, *palette, opacity),
{
    let y = layout.trace_rect.min.y.plus(number(LABEL_TOP_BITS)).plus(
        Binary32::from_u64(row).times(number(LABEL_STEP_BITS)),
    );
    labels.push(
        Label {
            text: LabelText::Caption(caption),
            position: Pos2 { x: layout.left_rect.min.x, y },
            anchor: Anchor::LeftCenter,
            style: style_of_channel(palette, number(LABEL_SIZE_BITS), opacity.times(number(LABEL_OPACITY_BITS))),
        },
    );
    labels.push(
        Label {
            text: value,
            position: Pos2 { x: layout.left_rect.max.x, y },
            anchor: Anchor::RightCenter,
            style: style_of_channel(palette, number(VALUE_SIZE_BITS), opacity),
        },
    );
    proof {
        assert(labels@ =~= old(labels)@ + channel_labels(*layout, row as int, caption, value, *palette, opacity));
    }
}

/// The mark of a division of the time axis.
pub open spec fn time_label(layout: OpenHudLayout, division: int, opacity: Binary32) -> Label {
    Label {
        text: LabelText::TimeMark(division as u64),
        position: Pos2 {
            x: between(
                layout.trace_rect.min.x,
                layout.trace_rect.max.x,
                whole(division as nat).quotient(whole(GRID_DIVISIONS as nat)),
            ),
            y: layout.trace_rect.max.y.sum(num(TIME_DROP_BITS)),
        },
        anchor: Anchor::CenterTop,
        style: LabelStyle {
            size: num(TIME_SIZE_BITS),
            face: text_secondary(),
            glow: text_secondary(),
            opacity: opacity.product(num(TIME_OPACITY_BITS)),
            class: TextClass::Secondary,
            display_face: false,
        },
    }
}

/// The marks of the time axis.
pub open spec fn time_labels(layout: OpenHudLayout, opacity: Binary32) -> Seq<Label> {
    Seq::new((GRID_DIVISIONS + 1) as nat, |i: int| time_label(layout, i, opacity))
}

fn push_time_labels(labels: &mut Vec<Label>, layout: &OpenHudLayout, opacity: Binary32)
    ensures
        final(labels)@ == old(labels)@ + time_labels(*layout, opacity),
{
    let ghost before = labels@;
    let mut division: u64 = 0;
    while division <= GRID_DIVISIONS
        invariant
            division <= GRID_DIVISIONS + 1,
            labels@ == before + Seq::new(division as nat, |i: int| time_label(*layout, i, opacity)),
        decreases GRID_DIVISIONS + 1 - division,
    {
        let t = Binary32::from_u64(division).over(Binary32::from_u64(GRID_DIVISIONS));
        labels.push(
            Label {
                text: LabelText::TimeMark(division),
                position: Pos2 {
                    x: lerp(layout.trace_rect.min.x, layout.trace_rect.max.x, t),
                    y: layout.trace_rect.max.y.plus(number(TIME_DROP_BITS)),
                },
                anchor: Anchor::CenterTop,
                style: LabelStyle {
                    size: number(TIME_SIZE_BITS),
                    face: text_secondary_color(),
                    glow: text_secondary_color(),
                    opacity: opacity.times(number(TIME_OPACITY_BITS)),
                    class: TextClass::Secondary,
                    display_face: false,
                },
            },
        );
        division = division + 1;
        proof {
            assert(labels@ =~= before + Seq::new(division as nat, |i: int| time_label(*layout, i, opacity)));
        }
    }
}

/// The value above and the label below a meter.
pub open spec fn meter_labels(
    meter: Rect,
    caption: Caption,
    value: LabelText,
    palette: ChannelPalette,
    opacity: Binary32,
) -> Seq<Label> {
    let x = meter.middle().x;
    seq![
        Label {
            text: value,
            position: Pos2 { x, y: meter.min.y.difference(num(METER_VALUE_RISE_BITS)) },
            anchor: Anchor::CenterBottom,
            style: channel_style(palette, num(METER_VALUE_SIZE_BITS), opacity),
        },
        Label {
            text: LabelText::Caption(caption),
            position: Pos2 { x, y: meter.max.y.sum(num(METER_LABEL_DROP_BITS)) },
            anchor: Anchor::CenterTop,
            style: channel_style(
                palette,
                num(METER_LABEL_SIZE_BITS),
                opacity.product(num(METER_LABEL_OPACITY_BITS)),
            ),
        },
    ]
}

fn push_meter_labels(
    labels: &mut Vec<Label>,
    meter: &Rect,
    caption: Caption,
    value: LabelText,
    palette: &ChannelPalette,
    opacity: Binary32,
)
    ensures
        final(labels)@ == old(labels)@ + meter_labels(*meter, caption, value, *palette, opacity),
{
    let x = meter.center().x;
    labels.push(
        Label {
            text: value,
            position: Pos2 { x, y: meter.min.y.minus(number(METER_VALUE_RISE_BITS)) },
            anchor: Anchor::CenterBottom,
            style: style_of_channel(palette, number(METER_VALUE_SIZE_BITS), opacity),
        },
    );
    labels.push(
        Label {
            text: LabelText::Caption(caption),
            position: Pos2 { x, y: meter.max.y.plus(number(METER_LABEL_DROP_BITS)) },
            anchor: Anchor::CenterTop,
            style: style_of_channel(
                palette,
                number(METER_LABEL_SIZE_BITS),
                opacity.times(number(METER_LABEL_OPACITY_BITS)),
            ),
        },
    );
    proof {
        assert(labels@ =~= old(labels)@ + meter_labels(*meter, caption, value, *palette, opacity));
    }
}

/// A label in the display face around its position.
pub open spec fn center_label(
    text: LabelText,
    position: Pos2,
    size: Binary32,
    face: Color,
    glow: Color,
    opacity: Binary32,
    class: TextClass,
) -> Label {
    Label {
        text,
        position,
        anchor: Anchor::Center,
        style: LabelStyle { size, face, glow, opacity, class, display_face: true },
    }
}

fn build_center_label(
    text: LabelText,
    position: Pos2,
    size: Binary32,
    face: Color,
    glow: Color,
    opacity: Binary32,
    class: TextClass,
) -> (r: Label)
    ensures
        r == center_label(text, position, size, face, glow, opacity, class),
{
    Label {
        text,
        position,
        anchor: Anchor::Center,
        style: LabelStyle { size, face, glow, opacity, class, display_face: true },
    }
}

/// The value and the label of the steering.
pub open spec fn steering_labels(layout: OpenHudLayout, opacity: Binary32) -> Seq<Label> {
    seq![
        center_label(
            LabelText::SteeringAngle,
            centered_at(layout.steering_rect, num(STEERING_PLACE_BITS)),
            num(STEERING_SIZE_BITS),
            text_primary(),
            steering_white(),
            opacity,
            TextClass::Channel,
        ),
        center_label(
            LabelText::Caption(Caption::Steering),
            steering_label_place(layout),
            num(STEERING_LABEL_SIZE_BITS),
            text_secondary(),
            steering_white(),
            opacity.product(num(STEERING_LABEL_OPACITY_BITS)),
            TextClass::Secondary,
        ),
    ]
}

/// Engine speed, gear, speed and its unit in the middle of the display.
pub open spec fn center_labels(layout: OpenHudLayout, opacity: Binary32) -> Seq<Label> {
    let rect = layout.center_rect;
    seq![
        center_label(
            LabelText::EngineSpeed,
            Pos2 { x: rect.middle().x, y: rect.min.y.sum(rect.span_y().product(num(RPM_PLACE_BITS))) },
            rect.span_x().product(num(RPM_SHARE_BITS)).clamped(num(RPM_MIN_BITS), num(RPM_MAX_BITS)),
            text_secondary(),
            text_primary(),
            opacity.product(num(RPM_OPACITY_BITS)),
            TextClass::Secondary,
        ),
        center_label(
            LabelText::Gear,
            centered_at(rect, num(GEAR_PLACE_BITS)),
            rect.span_y().product(num(GEAR_SHARE_BITS)).clamped(num(GEAR_MIN_BITS), num(GEAR_MAX_BITS)),
            text_primary(),
            steering_white(),
            opacity,
            TextClass::Secondary,
        ),
        center_label(
            LabelText::SpeedValue,
            centered_at(rect, num(SPEED_PLACE_BITS)),
            rect.span_y().product(num(SPEED_SHARE_BITS)).clamped(num(SPEED_MIN_BITS), num(SPEED_MAX_BITS)),
            text_primary(),
            steering_white(),
            opacity.product(num(SPEED_OPACITY_BITS)),
            TextClass::Secondary,
        ),
        center_label(
            LabelText::SpeedUnit,
            Pos2 { x: rect.middle().x, y: rect.min.y.sum(rect.span_y().product(num(UNIT_PLACE_BITS))) },
            num(UNIT_SIZE_BITS),
            text_secondary(),
            text_secondary(),
            opacity.product(num(UNIT_OPACITY_BITS)),
            TextClass::Secondary,
        ),
    ]
}

fn push_center_labels(labels: &mut Vec<Label>, layout: &OpenHudLayout, opacity: Binary32)
    ensures
        final(labels)@ == old(labels)@ + steering_labels(*layout, opacity) + center_labels(*layout, opacity),
{
    let rect = layout.center_rect;
    let x = rect.center().x;
    labels.push(
        build_center_label(
            LabelText::SteeringAngle,
            steering_value_position(layout),
            number(STEERING_SIZE_BITS),
            text_primary_color(),
            steering_white_color(),
            opacity,
            TextClass::Channel,
        ),
    );
    labels.push(
        build_center_label(
            LabelText::Caption(Caption::Steering),
            steering_label_position(layout),
            number(STEERING_LABEL_SIZE_BITS),
            text_secondary_color(),
            steering_white_color(),
            opacity.times(number(STEERING_LABEL_OPACITY_BITS)),
            TextClass::Secondary,
        ),
    );
    labels.push(
        build_center_label(
            LabelText::EngineSpeed,
            Pos2 { x, y: rect.min.y.plus(rect.height().times(number(RPM_PLACE_BITS))) },
            rect.width().times(number(RPM_SHARE_BITS)).clamp(number(RPM_MIN_BITS), number(RPM_MAX_BITS)),
            text_secondary_color(),
            text_primary_color(),
            opacity.times(number(RPM_OPACITY_BITS)),
            TextClass::Secondary,
        ),
    );
    labels.push(
        build_center_label(
            LabelText::Gear,
            gear_value_position(layout),
            rect.height().times(number(GEAR_SHARE_BITS)).clamp(number(GEAR_MIN_BITS), number(GEAR_MAX_BITS)),
            text_primary_color(),
            steering_white_color(),
            opacity,
            TextClass::Secondary,
        ),
    );
    labels.push(
        build_center_label(
            LabelText::SpeedValue,
            speed_value_position(layout),
            rect.height().times(number(SPEED_SHARE_BITS)).clamp(number(SPEED_MIN_BITS), number(SPEED_MAX_BITS)),
            text_primary_color(),
            steering_white_color(),
            opacity.times(number(SPEED_OPACITY_BITS)),
            TextClass::Secondary,
        ),
    );
    labels.push(
        build_center_label(
            LabelText::SpeedUnit,
            Pos2 { x, y: rect.min.y.plus(rect.height().times(number(UNIT_PLACE_BITS))) },
            number(UNIT_SIZE_BITS),
            text_secondary_color(),
            text_secondary_color(),
            opacity.times(number(UNIT_OPACITY_BITS)),
            TextClass::Secondary,
        ),
    );
    proof {
        assert(labels@ =~= old(labels)@ + steering_labels(*layout, opacity) + center_labels(*layout, opacity));
    }
}

/// The label of an active aid, if it is active.
pub open spec fn state_labels(layout: OpenHudLayout, abs: bool, tc: bool, opacity: Binary32) -> Seq<Label> {
    let x = layout.center_rect.middle().x;
    let y = layout.center_rect.max.y.difference(num(STATE_RISE_BITS));
    let abs_label = center_label(
        LabelText::Caption(Caption::Abs),
        Pos2 { x: x.difference(num(STATE_OFFSET_BITS)), y },
        num(STATE_SIZE_BITS),
        abs_amber(),
        abs_amber(),
        opacity,
        TextClass::Channel,
    );
    let tc_label = center_label(
        LabelText::Caption(Caption::Tc),
        Pos2 { x: x.sum(num(STATE_OFFSET_BITS)), y },
        num(STATE_SIZE_BITS),
        throttle_colors().text_face,
        throttle_colors().text_glow,
        opacity,
        TextClass::Channel,
    );
    (if abs {
        seq![abs_label]
    } else {
        Seq::empty()
    }) + (if tc {
        seq![tc_label]
    } else {
        Seq::empty()
    })
}

fn push_state_labels(labels: &mut Vec<Label>, layout: &OpenHudLayout, abs: bool, tc: bool, opacity: Binary32)
    ensures
        final(labels)@ == old(labels)@ + state_labels(*layout, abs, tc, opacity),
{
    let x = layout.center_rect.center().x;
    let y = layout.center_rect.max.y.minus(number(STATE_RISE_BITS));
    if abs {
        labels.push(
            build_center_label(
                LabelText::Caption(Caption::Abs),
                Pos2 { x: x.minus(number(STATE_OFFSET_BITS)), y },
                number(STATE_SIZE_BITS),
                abs_amber_color(),
                abs_amber_color(),
                opacity,
                TextClass::Channel,
            ),
        );
    }
    if tc {
        let palette = throttle_palette();
        labels.push(
            build_center_label(
                LabelText::Caption(Caption::Tc),
                Pos2 { x: x.plus(number(STATE_OFFSET_BITS)), y },
                number(STATE_SIZE_BITS),
                palette.text_face,
                palette.text_glow,
                opacity,
                TextClass::Channel,
            ),
        );
    }
    proof {
        assert(labels@ =~= old(labels)@ + state_labels(*layout, abs, tc, opacity));
    }
}

/// All texts of the display.
pub open spec fn all_labels(layout: OpenHudLayout, abs: bool, tc: bool, opacity: Binary32) -> Seq<Label> {
    channel_labels(layout, 0, Caption::Brake, LabelText::BrakePercent, brake_colors(), opacity) + channel_labels(
        layout,
        1,
        Caption::Throttle,
        LabelText::ThrottlePercent,
        throttle_colors(),
        opacity,
    ) + channel_labels(layout, 2, Caption::Speed, LabelText::SpeedValue, speed_colors(), opacity) + time_labels(
        layout,
        opacity,
    ) + meter_labels(layout.brake_meter_rect, Caption::Brake, LabelText::BrakePercent, brake_colors(), opacity)
        + meter_labels(
        layout.throttle_meter_rect,
        Caption::Throttle,
        LabelText::ThrottlePercent,
        throttle_colors(),
        opacity,
    ) + steering_labels(layout, opacity) + center_labels(layout, opacity) + state_labels(layout, abs, tc, opacity)
}

impl<'a> F1OpenHud<'a> {
    /// The heads of the traces. Those of brake and throttle leave their light
    /// to the glow when it is drawn as light; the speed has no such light.
    pub open spec fn heads_of(self, cache: F1OpenHudCache, additive_glow: bool) -> Seq<Circle> {
        if self.trace_layers.switched_on().endpoint {
            head_circles(
                cache.brake_head,
                brake_colors(),
                self.opacity.product(num(ONE_BITS)),
                additive_glow,
            ) + head_circles(
                cache.throttle_head,
                throttle_colors(),
                self.opacity.product(num(ONE_BITS)),
                additive_glow,
            ) + head_circles(
                cache.speed_head,
                speed_colors(),
                self.opacity.product(num(SPEED_HEAD_BITS)),
                false,
            )
        } else {
            Seq::empty()
        }
    }

    /// The heads of the traces.
    pub fn heads(&self, cache: &F1OpenHudCache, additive_glow: bool) -> (r: Vec<Circle>)
        ensures
            r@ == self.heads_of(*cache, additive_glow),
    {
        let mut circles: Vec<Circle> = Vec::new();
        if self.trace_layers.policy().endpoint {
            let opacity = self.opacity.times(number(ONE_BITS));
            push_head(&mut circles, cache.brake_head, &brake_palette(), opacity, additive_glow);
            push_head(&mut circles, cache.throttle_head, &throttle_palette(), opacity, additive_glow);
            let speed_opacity = self.opacity.times(number(SPEED_HEAD_BITS));
            push_head(&mut circles, cache.speed_head, &speed_palette(), speed_opacity, false);
        }
        proof {
            assert(circles@ =~= self.heads_of(*cache, additive_glow));
        }
        circles
    }

    /// The texts of the display in a rectangle.
    pub fn labels(&self, rect: Rect, cache: &F1OpenHudCache) -> (r: Vec<Label>)
        ensures
            r@ == all_labels(layout_of(rect), cache.values.abs_active, cache.values.tc_active, self.opacity),
    {
        let layout = OpenHudLayout::new(rect);
        let brake = brake_palette();
        let throttle = throttle_palette();
        let opacity = self.opacity;
        let mut labels: Vec<Label> = Vec::new();
        push_channel_labels(&mut labels, &layout, 0, Caption::Brake, LabelText::BrakePercent, &brake, opacity);
        push_channel_labels(
            &mut labels,
            &layout,
            1,
            Caption::Throttle,
            LabelText::ThrottlePercent,
            &throttle,
            opacity,
        );
        push_channel_labels(&mut labels, &layout, 2, Caption::Speed, LabelText::SpeedValue, &speed_palette(), opacity);
        push_time_labels(&mut labels, &layout, opacity);
        push_meter_labels(
            &mut labels,
            &layout.brake_meter_rect,
            Caption::Brake,
            LabelText::BrakePercent,
            &brake,
            opacity,
        );
        push_meter_labels(
            &mut labels,
            &layout.throttle_meter_rect,
            Caption::Throttle,
            LabelText::ThrottlePercent,
            &throttle,
            opacity,
        );
        push_center_labels(&mut labels, &layout, opacity);
        push_state_labels(&mut labels, &layout, cache.values.abs_active, cache.values.tc_active, opacity);
        proof {
            assert(labels@ =~= all_labels(layout, cache.values.abs_active, cache.values.tc_active, opacity));
        }
        labels
    }
}

/// Every label of the display has a text: its time marks lie on the axis.
pub proof fn law_labels_have_a_text(layout: OpenHudLayout, abs: bool, tc: bool, opacity: Binary32, i: int)
    requires
        0 <= i < all_labels(layout, abs, tc, opacity).len(),
    ensures
        all_labels(layout, abs, tc, opacity)[i].text.on_axis(),
{
}

/// A text drawn once, in one colour.
#[derive(Debug, Clone, Copy, PartialEq, Eq, Structural)]
pub struct TextLayer {
    pub position: Pos2,
    pub color: Color,
}

/// A text drawn on four sides of a position.
pub open spec fn spread_layers(position: Pos2, spread: Binary32, color: Color) -> Seq<TextLayer> {
    let zero = num(ZERO_BITS);
    seq![
        TextLayer { position: position.moved((Vec2 { x: spread.opposite(), y: zero })), color },
        TextLayer { position: position.moved((Vec2 { x: spread, y: zero })), color },
        TextLayer { position: position.moved((Vec2 { x: zero, y: spread.opposite() })), color },
        TextLayer { position: position.moved((Vec2 { x: zero, y: spread })), color },
    ]
}

fn push_spread_layers(layers: &mut Vec<TextLayer>, position: Pos2, spread: Binary32, color: Color)
    ensures
        final(layers)@ == old(layers)@ + spread_layers(position, spread, color),
{
    let zero = number(ZERO_BITS);
    layers.push(TextLayer { position: position.plus(Vec2 { x: spread.negate(), y: zero }), color });
    layers.push(TextLayer { position: position.plus(Vec2 { x: spread, y: zero }), color });
    layers.push(TextLayer { position: position.plus(Vec2 { x: zero, y: spread.negate() }), color });
    layers.push(TextLayer { position: position.plus(Vec2 { x: zero, y: spread }), color });
    proof {
        assert(layers@ =~= old(layers)@ + spread_layers(position, spread, color));
    }
}

/// The layers of a luminous text: a shadow, the light of a channel text in two
/// rings, and the face.
pub open spec fn text_layers(position: Pos2, style: LabelStyle) -> Seq<TextLayer> {
    let shadow = TextLayer {
        position: position.moved((Vec2 { x: num(SHADOW_X_BITS), y: num(SHADOW_Y_BITS) })),
        color: dimmed(
            (Color { r: 0, g: 0, b: 0, a: 145 }),
            style.opacity.product(num(SHADOW_OPACITY_BITS)),
        ),
    };
    let outer = style.size.product(num(OUTER_SHARE_BITS)).clamped(num(OUTER_MIN_BITS), num(OUTER_MAX_BITS));
    let inner = style.size.product(num(INNER_SHARE_BITS)).clamped(num(INNER_MIN_BITS), num(TWO_BITS));
    match style.class {
        TextClass::Channel => seq![shadow] + spread_layers(
            position,
            outer,
            dimmed(style.glow, style.opacity.product(num(OUTER_OPACITY_BITS))),
        ) + spread_layers(
            position,
            inner,
            dimmed(style.glow, style.opacity.product(num(INNER_OPACITY_BITS))),
        ) + seq![
            TextLayer { position, color: dimmed(heated(style.face, num(FACE_HEAT_BITS)), style.opacity) },
        ],
        TextClass::Secondary => seq![
            shadow,
            TextLayer { position, color: dimmed(heated(style.face, num(ZERO_BITS)), style.opacity) },
        ],
    }
}

/// The layers of a luminous text.
pub fn luminous_layers(position: Pos2, style: &LabelStyle) -> (r: Vec<TextLayer>)
    ensures
        r@ == text_layers(position, *style),
{
    let mut layers: Vec<TextLayer> = Vec::new();
    layers.push(
        TextLayer {
            position: position.plus(Vec2 { x: number(SHADOW_X_BITS), y: number(SHADOW_Y_BITS) }),
            color: with_opacity(
                Color { r: 0, g: 0, b: 0, a: 145 },
                style.opacity.times(number(SHADOW_OPACITY_BITS)),
            ),
        },
    );
    let heat = match style.class {
        TextClass::Channel => {
            let outer = style.size.times(number(OUTER_SHARE_BITS)).clamp(
                number(OUTER_MIN_BITS),
                number(OUTER_MAX_BITS),
            );
            let inner = style.size.times(number(INNER_SHARE_BITS)).clamp(number(INNER_MIN_BITS), number(TWO_BITS));
            let outer_color = with_opacity(style.glow, style.opacity.times(number(OUTER_OPACITY_BITS)));
            push_spread_layers(&mut layers, position, outer, outer_color);
            let inner_color = with_opacity(style.glow, style.opacity.times(number(INNER_OPACITY_BITS)));
            push_spread_layers(&mut layers, position, inner, inner_color);
            number(FACE_HEAT_BITS)
        },
        TextClass::Secondary => number(ZERO_BITS),
    };
    layers.push(TextLayer { position, color: with_opacity(hot_face(style.face, heat), style.opacity) });
    proof {
        assert(layers@ =~= text_layers(position, *style));
    }
    layers
}

} // verus!
