use bevy_msdf::atlas::UvRect;
use bevy_msdf::bitmap::encode_distance;
use bevy_msdf::builder::AtlasBuilder;
use bevy_msdf::coloring::ChannelMask;
use bevy_msdf::error::MsdfAtlasLoaderError;
use bevy_msdf::framing::{Bounds, Frame};
use bevy_msdf::geometry::Point;
use bevy_msdf::glyph::{
    plan_glyph, read_outline, AtlasConfig, GlyphMetrics, GlyphPlan, OutlineReading,
};
use bevy_msdf::outline::PathCommand;

fn pt(x: i32, y: i32) -> Point {
    Point { x, y }
}

fn small() -> AtlasConfig {
    AtlasConfig { cell_width: 4, cell_height: 4, range: 1 }
}

fn square(side: i32) -> Vec<PathCommand> {
    vec![
        PathCommand::MoveTo(pt(0, 0)),
        PathCommand::LineTo(pt(side, 0)),
        PathCommand::LineTo(pt(side, side)),
        PathCommand::LineTo(pt(0, side)),
        PathCommand::Close,
    ]
}

fn flat() -> Vec<PathCommand> {
    vec![
        PathCommand::MoveTo(pt(0, 0)),
        PathCommand::LineTo(pt(640, 0)),
        PathCommand::LineTo(pt(1280, 0)),
        PathCommand::Close,
    ]
}

fn ramp(offset: i32) -> Vec<i32> {
    (0..48).map(|i| (i - 24) * 16 + offset).collect()
}

fn planned(builder: &mut AtlasBuilder, glyph: u16) -> GlyphPlan {
    builder.plan(glyph, Some(10), &square(640), OutlineReading::Outline).unwrap()
}

#[test]
fn the_default_configuration() {
    let c = AtlasConfig::default();
    assert_eq!(c, AtlasConfig { cell_width: 32, cell_height: 32, range: 4 });
    assert!(c.is_valid());
}

#[test]
fn configurations_that_cannot_be_used() {
    for c in [
        small(),
        AtlasConfig { cell_width: 64, cell_height: 64, range: 31 },
        AtlasConfig { cell_width: 1, cell_height: 1, range: 0 },
        AtlasConfig { cell_width: 4, cell_height: 4, range: 2 },
        AtlasConfig { cell_width: 64, cell_height: 64, range: 0x8000_0010 },
    ] {
        assert!(c.is_valid());
        assert!(AtlasBuilder::new(c, 1000, 3).is_some());
        assert!(AtlasBuilder::new(c, 1, 0).is_some());
        assert!(AtlasBuilder::new(c, 0, 3).is_none());
    }
    for c in [
        AtlasConfig { cell_width: 0, cell_height: 4, range: 0 },
        AtlasConfig { cell_width: 4, cell_height: 0, range: 0 },
        AtlasConfig { cell_width: 65, cell_height: 4, range: 1 },
        AtlasConfig { cell_width: 4, cell_height: 65, range: 1 },
    ] {
        assert!(!c.is_valid());
        assert!(AtlasBuilder::new(c, 1000, 3).is_none());
    }
}

#[test]
fn a_plan_holds_colors_frame_and_metrics() {
    let plan = plan_glyph(&small(), 1000, 2, 8, Some(10), &square(640), OutlineReading::Outline).unwrap();
    assert_eq!(plan.glyph, 2);
    assert_eq!(plan.contours.len(), 1);
    assert_eq!(plan.contours[0].edges.len(), 4);
    assert_eq!(plan.contours[0].edges[0].mask, ChannelMask { red: true, green: false, blue: true });
    assert_eq!(
        plan.frame,
        Frame {
            width: 4,
            height: 4,
            range: 1,
            scale_num: 2,
            scale_den: 640,
            origin_x: 0,
            origin_y: 0,
            pad_x: 640,
            pad_y: 640,
        }
    );
    // 10 units are the side of the box, which is 2 pixels
    assert_eq!(plan.metrics, GlyphMetrics { advance: 128, bearing_x: 0, bearing_y: 128 });
}

#[test]
fn bearings_round_down_and_the_advance_rounds_up() {
    let cmds = vec![
        PathCommand::MoveTo(pt(-100, -50)),
        PathCommand::LineTo(pt(200, -50)),
        PathCommand::LineTo(pt(200, 250)),
        PathCommand::Close,
    ];
    let plan = plan_glyph(&AtlasConfig::default(), 1000, 0, 1, None, &cmds, OutlineReading::Outline).unwrap();
    assert_eq!((plan.frame.scale_num, plan.frame.scale_den), (24, 300));
    // -100 * 24 * 64 / 300 = -512, 250 * 24 * 64 / 300 = 1280
    assert_eq!(plan.metrics, GlyphMetrics { advance: 0, bearing_x: -512, bearing_y: 1280 });
    let cmds = vec![
        PathCommand::MoveTo(pt(-1, 0)),
        PathCommand::LineTo(pt(6, 0)),
        PathCommand::LineTo(pt(6, 7)),
        PathCommand::Close,
    ];
    let plan = plan_glyph(&small(), 1000, 0, 1, Some(1), &cmds, OutlineReading::Outline).unwrap();
    // 64 * 2 * 64 / 7 = 1170.3, -1 * 2 * 64 / 7 = -18.3, 7 * 2 * 64 / 7 = 128
    assert_eq!(plan.metrics, GlyphMetrics { advance: 1171, bearing_x: -19, bearing_y: 128 });
    let cmds = vec![
        PathCommand::MoveTo(pt(0, 0)),
        PathCommand::LineTo(pt(9, 0)),
        PathCommand::LineTo(pt(9, 5)),
        PathCommand::LineTo(pt(1, 7)),
        PathCommand::Close,
    ];
    let plan = plan_glyph(&small(), 1000, 0, 1, None, &cmds, OutlineReading::Outline).unwrap();
    // 7 * 2 * 64 / 9 = 99.6
    assert_eq!(plan.metrics, GlyphMetrics { advance: 0, bearing_x: 0, bearing_y: 99 });
}

#[test]
fn a_glyph_without_contours_is_framed_as_the_em() {
    let plan = plan_glyph(&AtlasConfig::default(), 1000, 2, 8, Some(250), &Vec::new(), OutlineReading::Empty).unwrap();
    assert!(plan.contours.is_empty());
    assert_eq!((plan.frame.scale_num, plan.frame.scale_den), (24, 64000));
    assert_eq!(plan.metrics, GlyphMetrics { advance: 384, bearing_x: 0, bearing_y: 0 });
    // commands that draw nothing
    let cmds = vec![PathCommand::MoveTo(pt(5, 5)), PathCommand::LineTo(pt(5, 5)), PathCommand::Close];
    let plan = plan_glyph(&AtlasConfig::default(), 1000, 2, 8, Some(250), &cmds, OutlineReading::Outline).unwrap();
    assert!(plan.contours.is_empty());
    assert_eq!(plan.metrics.advance, 384);
}

#[test]
fn shapes_that_cannot_be_read() {
    let shape = Err(MsdfAtlasLoaderError::GlyphShape(7));
    // the glyph is none of the face
    assert_eq!(plan_glyph(&small(), 1000, 7, 7, Some(10), &square(640), OutlineReading::Outline), shape);
    assert_eq!(read_outline(7, 0, &Vec::new(), OutlineReading::Empty).err(), Some(MsdfAtlasLoaderError::GlyphShape(7)));
    // called empty, and yet with commands
    assert_eq!(plan_glyph(&small(), 1000, 7, 8, Some(10), &square(640), OutlineReading::Empty), shape);
    // the reader gave up
    assert_eq!(plan_glyph(&small(), 1000, 7, 8, Some(10), &square(640), OutlineReading::Unreadable), shape);
    assert_eq!(plan_glyph(&small(), 1000, 7, 8, Some(10), &Vec::new(), OutlineReading::Unreadable), shape);
    // a line from nowhere
    let cmds = vec![PathCommand::LineTo(pt(1, 1))];
    assert_eq!(plan_glyph(&small(), 1000, 7, 8, Some(10), &cmds, OutlineReading::Outline), shape);
    // a point too far out
    let cmds = vec![PathCommand::MoveTo(pt(0, 0)), PathCommand::LineTo(pt(5_000_000, 1))];
    assert_eq!(plan_glyph(&small(), 1000, 7, 8, Some(10), &cmds, OutlineReading::Outline), shape);
    assert!(read_outline(7, 8, &square(640), OutlineReading::Outline).is_ok());
    assert!(read_outline(7, 8, &Vec::new(), OutlineReading::Empty).unwrap().is_empty());
    assert!(read_outline(7, 8, &Vec::new(), OutlineReading::Outline).unwrap().is_empty());
}

#[test]
fn glyphs_that_cannot_be_framed() {
    assert_eq!(
        plan_glyph(&small(), 1000, 3, 8, Some(10), &flat(), OutlineReading::Outline),
        Err(MsdfAtlasLoaderError::AutoFraming { glyph: 3, width: 4, height: 4, range: 1 })
    );
    let tight = AtlasConfig { cell_width: 8, cell_height: 16, range: 4 };
    assert_eq!(
        plan_glyph(&tight, 1000, 3, 8, Some(10), &square(640), OutlineReading::Outline),
        Err(MsdfAtlasLoaderError::AutoFraming { glyph: 3, width: 8, height: 16, range: 4 })
    );
    // the shape is read before the frame is tried
    assert_eq!(
        plan_glyph(&tight, 1000, 9, 8, Some(10), &square(640), OutlineReading::Outline),
        Err(MsdfAtlasLoaderError::GlyphShape(9))
    );
}

#[test]
fn an_atlas_of_two_glyphs() {
    let mut builder = AtlasBuilder::new(small(), 1000, 8).unwrap();
    assert_eq!(builder.glyph_count(), 8);
    let five = planned(&mut builder, 5);
    let two = planned(&mut builder, 2);
    assert!(builder.accept(&five, &ramp(0)));
    assert!(builder.accept(&two, &ramp(100)));
    assert_eq!(builder.plan(6, Some(500), &Vec::new(), OutlineReading::Empty), None);
    let (atlas, errors) = builder.finish();
    assert!(errors.is_empty());

    // two cells side by side, glyph 2 before glyph 5
    assert_eq!((atlas.width(), atlas.height(), atlas.channel_count()), (8, 4, 3));
    assert_eq!(
        atlas.uv_rect(2),
        Some(UvRect { x: 0, y: 0, width: 4, height: 4, atlas_width: 8, atlas_height: 4 })
    );
    assert_eq!(
        atlas.uv_rect(5),
        Some(UvRect { x: 4, y: 0, width: 4, height: 4, atlas_width: 8, atlas_height: 4 })
    );
    assert_eq!(atlas.uv_rect(6), None);
    assert_eq!(atlas.uv_rect(0), None);
    assert_eq!(atlas.uv_rect(8), None);
    assert_eq!(atlas.uv_rect(65535), None);
    let l = atlas.layout();
    assert_eq!((l.columns, l.rows, l.cell_width, l.cell_height), (2, 1, 4, 4));

    assert_eq!(atlas.metrics(2), Some(GlyphMetrics { advance: 128, bearing_x: 0, bearing_y: 128 }));
    assert_eq!(atlas.metrics(5), atlas.metrics(2));
    // 500 units of an em of 1000 units, which is 2 pixels
    assert_eq!(atlas.metrics(6), Some(GlyphMetrics { advance: 64, bearing_x: 0, bearing_y: 0 }));
    assert_eq!(atlas.metrics(0), None);
    assert_eq!(atlas.metrics(8), None);

    let pixels = atlas.pixels();
    assert_eq!(pixels.len(), 8 * 4 * 3);
    let left = ramp(100);
    let right = ramp(0);
    for y in 0..4 {
        for x in 0..4 {
            for c in 0..3 {
                let i = (y * 4 + x) * 3 + c;
                assert_eq!(pixels[(y * 8 + x) * 3 + c], encode_distance(left[i], 1));
                assert_eq!(pixels[(y * 8 + 4 + x) * 3 + c], encode_distance(right[i], 1));
            }
        }
    }
    assert_eq!(pixels[0], encode_distance(-284, 1));
    assert_eq!(pixels[0], 0);
    assert_eq!(pixels[(2 * 8 + 4) * 3], 128);
}

#[test]
fn cells_without_glyph_and_the_rest_of_the_texture_are_empty() {
    let mut builder = AtlasBuilder::new(AtlasConfig { cell_width: 3, cell_height: 3, range: 1 }, 1000, 9).unwrap();
    for g in [1u16, 4, 7] {
        let plan = planned(&mut builder, g);
        assert!(builder.accept(&plan, &vec![300; 27]));
    }
    let (atlas, _) = builder.finish();
    // three glyphs: two columns, two rows, 8 by 8 pixels
    assert_eq!((atlas.width(), atlas.height()), (8, 8));
    assert_eq!(atlas.uv_rect(7).map(|r| (r.x, r.y)), Some((0, 3)));
    let pixels = atlas.pixels();
    for y in 0..8 {
        for x in 0..8 {
            let drawn = (x < 6 && y < 3) || (x < 3 && y < 6);
            for c in 0..3 {
                assert_eq!(pixels[(y * 8 + x) * 3 + c], if drawn { 255 } else { 0 });
            }
        }
    }
}

#[test]
fn the_order_of_the_glyphs_does_not_matter() {
    let build = |order: &[u16]| {
        let mut builder = AtlasBuilder::new(small(), 1000, 12).unwrap();
        for &g in order {
            let plan = planned(&mut builder, g);
            assert!(builder.accept(&plan, &ramp(g as i32 * 20)));
        }
        builder.finish().0
    };
    let a = build(&[1, 3, 4, 9, 11]);
    let b = build(&[9, 4, 11, 1, 3]);
    assert_eq!(a.pixels(), b.pixels());
    assert_eq!((a.width(), a.height()), (16, 8));
    let rects: Vec<UvRect> = [1u16, 3, 4, 9, 11].iter().map(|&g| a.uv_rect(g).unwrap()).collect();
    for (i, &g) in [1u16, 3, 4, 9, 11].iter().enumerate() {
        assert_eq!(b.uv_rect(g), Some(rects[i]));
        assert_eq!((rects[i].x, rects[i].y), ((i as u32 % 3) * 4, (i as u32 / 3) * 4));
        for other in &rects[i + 1..] {
            let r = rects[i];
            let apart = r.x + r.width <= other.x
                || other.x + other.width <= r.x
                || r.y + r.height <= other.y
                || other.y + other.height <= r.y;
            assert!(apart);
        }
    }
}

#[test]
fn a_glyph_that_fails_leaves_one_error_and_the_others_in_place() {
    let mut builder = AtlasBuilder::new(small(), 1000, 8).unwrap();
    let one = planned(&mut builder, 1);
    assert!(builder.accept(&one, &ramp(0)));
    assert_eq!(builder.plan(3, Some(10), &flat(), OutlineReading::Outline), None);
    assert_eq!(builder.plan(2, Some(10), &Vec::new(), OutlineReading::Empty), None);
    assert_eq!(builder.plan(4, Some(10), &square(640), OutlineReading::Empty), None);
    assert_eq!(builder.plan(200, Some(10), &square(640), OutlineReading::Outline), None);
    let six = planned(&mut builder, 6);
    assert!(builder.accept(&six, &ramp(0)));
    let (atlas, errors) = builder.finish();
    assert_eq!(
        errors,
        vec![
            MsdfAtlasLoaderError::AutoFraming { glyph: 3, width: 4, height: 4, range: 1 },
            MsdfAtlasLoaderError::GlyphShape(4),
            MsdfAtlasLoaderError::GlyphShape(200),
        ]
    );
    assert!(atlas.uv_rect(1).is_some());
    assert!(atlas.uv_rect(6).is_some());
    assert!(atlas.metrics(2).is_some());
    assert_eq!(atlas.metrics(3), None);
    assert_eq!(atlas.metrics(4), None);
}

#[test]
fn distances_that_do_not_fit_are_not_accepted() {
    let mut builder = AtlasBuilder::new(small(), 1000, 8).unwrap();
    let plan = planned(&mut builder, 1);
    assert!(!builder.accept(&plan, &vec![0; 47]));
    assert!(!builder.accept(&plan, &Vec::new()));
    let mut stray = plan.clone();
    stray.glyph = 8;
    assert!(!builder.accept(&stray, &ramp(0)));
    let (atlas, errors) = builder.finish();
    assert_eq!(
        errors,
        vec![
            MsdfAtlasLoaderError::GlyphShape(1),
            MsdfAtlasLoaderError::GlyphShape(1),
            MsdfAtlasLoaderError::GlyphShape(8),
        ]
    );
    assert_eq!(atlas.uv_rect(1), None);
    assert_eq!(atlas.metrics(1), None);
    assert_eq!((atlas.width(), atlas.height()), (4, 4));
    assert_eq!(atlas.pixels(), &vec![0u8; 48]);
}

#[test]
fn a_glyph_entered_twice_counts_as_entered_last() {
    let mut builder = AtlasBuilder::new(small(), 1000, 8).unwrap();
    let plan = planned(&mut builder, 1);
    assert!(builder.accept(&plan, &vec![-300; 48]));
    assert!(builder.accept(&plan, &vec![300; 48]));
    let (atlas, _) = builder.finish();
    assert_eq!(atlas.pixels(), &vec![255u8; 48]);
    let mut builder = AtlasBuilder::new(small(), 1000, 8).unwrap();
    let plan = planned(&mut builder, 1);
    assert!(builder.accept(&plan, &vec![300; 48]));
    assert_eq!(builder.plan(1, Some(20), &Vec::new(), OutlineReading::Empty), None);
    let (atlas, _) = builder.finish();
    assert_eq!(atlas.uv_rect(1), None);
    // 20 * 64 * 2 * 64 / 64000 = 2.56
    assert_eq!(atlas.metrics(1).map(|m| m.advance), Some(3));
}

#[test]
fn an_atlas_without_glyphs() {
    let (atlas, errors) = AtlasBuilder::new(AtlasConfig::default(), 1000, 0).unwrap().finish();
    assert!(errors.is_empty());
    assert_eq!((atlas.width(), atlas.height()), (32, 32));
    assert_eq!(atlas.pixels(), &vec![0u8; 32 * 32 * 3]);
    assert_eq!(atlas.metrics(0), None);
}

#[test]
fn what_silence_means() {
    assert_eq!(OutlineReading::silent(None), OutlineReading::Empty);
    let flat = Bounds { x_min: 0, y_min: 0, x_max: 0, y_max: 0 };
    assert_eq!(OutlineReading::silent(Some(flat)), OutlineReading::Empty);
    let line = Bounds { x_min: 0, y_min: 5, x_max: 90, y_max: 5 };
    assert_eq!(OutlineReading::silent(Some(line)), OutlineReading::Empty);
    let inverted = Bounds { x_min: 9, y_min: 0, x_max: 0, y_max: 5 };
    assert_eq!(OutlineReading::silent(Some(inverted)), OutlineReading::Empty);
    let area = Bounds { x_min: -1, y_min: -1, x_max: 0, y_max: 0 };
    assert_eq!(OutlineReading::silent(Some(area)), OutlineReading::Unreadable);
    assert_eq!(OutlineReading::report(true, true, Some(area)), OutlineReading::Outline);
    assert_eq!(OutlineReading::report(true, false, None), OutlineReading::Outline);
    assert_eq!(OutlineReading::report(false, true, None), OutlineReading::Unreadable);
    assert_eq!(OutlineReading::report(false, true, Some(flat)), OutlineReading::Unreadable);
    assert_eq!(OutlineReading::report(false, false, Some(area)), OutlineReading::Unreadable);
    assert_eq!(OutlineReading::report(false, false, Some(flat)), OutlineReading::Empty);
    assert_eq!(OutlineReading::report(false, false, None), OutlineReading::Empty);
}

#[test]
fn an_advance_above_zero_stays_above_zero() {
    // one unit of an em of 2048 in a room of 24 pixels: 0.75 of a metric unit
    let plan = plan_glyph(&AtlasConfig::default(), 2048, 0, 1, Some(1), &Vec::new(), OutlineReading::Empty).unwrap();
    assert_eq!(plan.metrics.advance, 1);
    let plan = plan_glyph(&AtlasConfig::default(), 16384, 0, 1, Some(1), &Vec::new(), OutlineReading::Empty).unwrap();
    assert_eq!(plan.metrics.advance, 1);
    let plan = plan_glyph(&AtlasConfig::default(), 2048, 0, 1, Some(0), &Vec::new(), OutlineReading::Empty).unwrap();
    assert_eq!(plan.metrics.advance, 0);
    let plan = plan_glyph(&AtlasConfig::default(), 2048, 0, 1, None, &Vec::new(), OutlineReading::Empty).unwrap();
    assert_eq!(plan.metrics.advance, 0);
    // a large box makes a small scale
    let plan = plan_glyph(&small(), 1000, 0, 1, Some(1), &square(4_000_000), OutlineReading::Outline).unwrap();
    assert_eq!(plan.metrics.advance, 1);
    // through the builder
    let mut builder = AtlasBuilder::new(AtlasConfig::default(), 2048, 2).unwrap();
    assert_eq!(builder.plan(1, Some(1), &Vec::new(), OutlineReading::Empty), None);
    let (atlas, errors) = builder.finish();
    assert!(errors.is_empty());
    assert_eq!(atlas.metrics(1), Some(GlyphMetrics { advance: 1, bearing_x: 0, bearing_y: 0 }));
    assert_eq!(atlas.uv_rect(1), None);
}

#[test]
fn a_range_without_room_fails_each_drawn_glyph_by_itself() {
    let tight = AtlasConfig { cell_width: 8, cell_height: 8, range: 4 };
    let mut builder = AtlasBuilder::new(tight, 1000, 4).unwrap();
    assert_eq!(builder.plan(0, Some(500), &square(640), OutlineReading::Outline), None);
    assert_eq!(builder.plan(1, Some(500), &Vec::new(), OutlineReading::Empty), None);
    assert_eq!(builder.plan(2, Some(500), &square(64), OutlineReading::Outline), None);
    let (atlas, errors) = builder.finish();
    assert_eq!(
        errors,
        vec![
            MsdfAtlasLoaderError::AutoFraming { glyph: 0, width: 8, height: 8, range: 4 },
            MsdfAtlasLoaderError::AutoFraming { glyph: 2, width: 8, height: 8, range: 4 },
        ]
    );
    // the glyph without contours is framed as the em in the whole cell:
    // 500 units of 1000 are 4 pixels
    assert_eq!(atlas.metrics(1), Some(GlyphMetrics { advance: 256, bearing_x: 0, bearing_y: 0 }));
    assert_eq!(atlas.metrics(0), None);
    assert_eq!((atlas.width(), atlas.height()), (8, 8));
    // without an em there is no scale for it either
    assert_eq!(
        plan_glyph(&tight, 0, 1, 4, Some(500), &Vec::new(), OutlineReading::Empty),
        Err(MsdfAtlasLoaderError::AutoFraming { glyph: 1, width: 8, height: 8, range: 4 })
    );
}
