use raycaster::graphics::{ConfigError, GraphicsContext};
use raycaster::raster::draw_line;

const RED: [u8; 3] = [255, 0, 0];
const BLACK: [u8; 3] = [0, 0, 0];

fn context(w: u32, h: u32) -> GraphicsContext<(), ()> {
    match GraphicsContext::new((), (), w, h) {
        Ok(c) => c,
        Err(e) => panic!("cannot make context: {:?}", e),
    }
}

fn painted(ctx: &GraphicsContext<(), ()>) -> Vec<(u32, u32)> {
    let mut out = Vec::new();
    for y in 0..ctx.img_height() {
        for x in 0..ctx.img_width() {
            if ctx.get_pixel(x, y) != BLACK {
                out.push((x, y));
            }
        }
    }
    out
}

#[test]
fn new_context_is_black() {
    let ctx = context(4, 3);
    assert_eq!(ctx.img_width(), 4);
    assert_eq!(ctx.img_height(), 3);
    assert!(painted(&ctx).is_empty());
    assert_eq!(ctx.raw_pixels(), vec![0u8; 36]);
}

#[test]
fn new_context_rejects_empty_image() {
    assert_eq!(GraphicsContext::new((), (), 0, 5).err(), Some(ConfigError::EmptyImage));
    assert_eq!(GraphicsContext::new((), (), 5, 0).err(), Some(ConfigError::EmptyImage));
}

#[test]
fn new_context_rejects_oversized_image() {
    if usize::MAX as u128 <= 3 * (u32::MAX as u128) * (u32::MAX as u128) {
        assert_eq!(
            GraphicsContext::new((), (), u32::MAX, u32::MAX).err(),
            Some(ConfigError::ImageTooLarge)
        );
    }
}

#[test]
fn put_pixel_flips_rows() {
    let mut ctx = context(4, 4);
    ctx.put_pixel(1, 1, RED);
    assert_eq!(ctx.get_pixel(1, 3), RED);
    assert_eq!(painted(&ctx), vec![(1, 3)]);
    ctx.put_pixel(3, 3, RED);
    assert_eq!(ctx.get_pixel(3, 1), RED);
}

#[test]
fn put_pixel_ignores_outside() {
    let mut ctx = context(4, 4);
    ctx.put_pixel(-1, 2, RED);
    ctx.put_pixel(4, 2, RED);
    ctx.put_pixel(2, -1, RED);
    ctx.put_pixel(2, 4, RED);
    ctx.put_pixel(2, 0, RED);
    assert!(painted(&ctx).is_empty());
}

#[test]
fn put_pixel_unchecked_writes_top_row() {
    let mut ctx = context(4, 4);
    ctx.put_pixel_unchecked(2, 4, RED);
    assert_eq!(ctx.get_pixel(2, 0), RED);
    assert_eq!(painted(&ctx), vec![(2, 0)]);
}

#[test]
fn raw_pixels_layout() {
    let mut ctx = context(3, 2);
    ctx.put_pixel(1, 1, [1, 2, 3]);
    let raw = ctx.raw_pixels();
    assert_eq!(raw.len(), 18);
    // buffer position (1, 1): offset 3 * (1 * 3 + 1)
    assert_eq!(&raw[12..15], &[1, 2, 3]);
    assert_eq!(raw.iter().map(|b| *b as u32).sum::<u32>(), 6);
}

#[test]
fn draw_line_shallow() {
    let mut ctx = context(10, 10);
    draw_line((1, 1), (4, 2), RED, &mut ctx);
    // pixels (1,1), (2,1), (3,2), rows flipped
    assert_eq!(painted(&ctx), vec![(3, 8), (1, 9), (2, 9)]);
}

#[test]
fn draw_line_reversed_ends_same_pixels() {
    let mut a = context(10, 10);
    let mut b = context(10, 10);
    draw_line((1, 1), (4, 2), RED, &mut a);
    draw_line((4, 2), (1, 1), RED, &mut b);
    assert_eq!(painted(&a), painted(&b));
}

#[test]
fn draw_line_steep_rounds_halves_up() {
    let mut ctx = context(10, 10);
    draw_line((2, 1), (3, 5), RED, &mut ctx);
    // pixels (2,1), (2,2), (3,3), (3,4)
    assert_eq!(painted(&ctx), vec![(3, 6), (3, 7), (2, 8), (2, 9)]);
}

#[test]
fn draw_line_single_point() {
    let mut ctx = context(10, 10);
    draw_line((5, 5), (5, 5), RED, &mut ctx);
    assert_eq!(painted(&ctx), vec![(5, 5)]);
}

#[test]
fn draw_line_endpoint_outside_draws_nothing() {
    let mut ctx = context(10, 10);
    draw_line((1, 1), (10, 2), RED, &mut ctx);
    draw_line((-1, 1), (3, 2), RED, &mut ctx);
    draw_line((1, 1), (3, 12), RED, &mut ctx);
    assert!(painted(&ctx).is_empty());
}

#[test]
fn render_passes_upward_rows() {
    let mut ctx = context(3, 2);
    ctx.render(|x, y| [x as u8, y as u8, 7]);
    for r in 0..2u32 {
        for x in 0..3u32 {
            assert_eq!(ctx.get_pixel(x, r), [x as u8, (2 - r) as u8, 7]);
        }
    }
}

#[test]
fn drawing_leaves_camera_fields_alone() {
    let mut ctx: GraphicsContext<u32, (i8, i8)> = match GraphicsContext::new(41, (-3, 9), 6, 6) {
        Ok(c) => c,
        Err(e) => panic!("cannot make context: {:?}", e),
    };
    ctx.put_pixel(2, 2, RED);
    ctx.put_pixel(9, 9, RED);
    ctx.put_pixel_unchecked(1, 6, RED);
    draw_line((0, 1), (5, 4), RED, &mut ctx);
    draw_line((0, 1), (8, 4), RED, &mut ctx);
    ctx.render(|x, y| [x as u8, y as u8, 0]);
    assert_eq!(ctx.tf_root, 41);
    assert_eq!(ctx.projection, (-3, 9));
    assert_eq!(ctx.img_width(), 6);
    assert_eq!(ctx.img_height(), 6);
}

#[test]
fn draw_line_changes_only_to_color() {
    let mut ctx = context(10, 10);
    ctx.put_pixel(3, 3, [9, 9, 9]);
    let before: Vec<[u8; 3]> = (0..100u32).map(|i| ctx.get_pixel(i % 10, i / 10)).collect();
    draw_line((1, 2), (8, 5), RED, &mut ctx);
    for i in 0..100u32 {
        let now = ctx.get_pixel(i % 10, i / 10);
        assert!(now == before[i as usize] || now == RED);
    }
}
