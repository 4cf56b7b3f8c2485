use tinyrenderer::basetype::{Pixel, Point2, Point3, Viewport};
use tinyrenderer::color::{Color, CHANNEL_ONE};
use tinyrenderer::rasterizer::Rasterizer;
use tinyrenderer::shader::{Interpolate, Shader, VertexFs};
use tinyrenderer::triangle::BaryCoord;

const PX: i64 = 256;

fn small_target() -> Rasterizer {
    let viewport = Viewport::new(4, 4, 0, 0).unwrap();
    Rasterizer::new(viewport)
}

#[test]
fn new_buffer_is_zeroed_and_sized() {
    let r = small_target();
    assert_eq!(r.frame_buffer.len(), 4 * 4 * 4);
    assert!(r.frame_buffer.iter().all(|&b| b == 0));
}

#[test]
fn clear_zeroes_a_dirty_buffer() {
    let mut r = small_target();
    r.draw_pixel(&Pixel::new(1, 1), &Color::new(CHANNEL_ONE, 0, 0, CHANNEL_ONE));
    assert!(r.frame_buffer.iter().any(|&b| b != 0));
    r.clear();
    assert!(r.frame_buffer.iter().all(|&b| b == 0));
}

#[test]
fn draw_pixel_outside_viewport_changes_nothing() {
    let mut r = small_target();
    let before = r.frame_buffer.clone();
    let color = Color::new(CHANNEL_ONE, CHANNEL_ONE, CHANNEL_ONE, CHANNEL_ONE);
    for p in [
        Pixel::new(-1, 0),
        Pixel::new(4, 0),
        Pixel::new(0, -1),
        Pixel::new(0, 4),
        Pixel::new(100, 100),
    ] {
        r.draw_pixel(&p, &color);
        assert_eq!(r.frame_buffer, before, "write at {p:?} must be a no-op");
    }
}

#[test]
fn draw_pixel_writes_flipped_row_and_truncated_bytes() {
    let mut r = small_target();
    // Half intensity: 0.5 * 255 truncates to 127.
    let color = Color::new(CHANNEL_ONE / 2, 0, CHANNEL_ONE, CHANNEL_ONE / 4);
    r.draw_pixel(&Pixel::new(1, 1), &color);
    // Local (1,1) flips to row 2: index = 1 + 2*4 = 9.
    let base = 9 * 4;
    assert_eq!(r.frame_buffer[base], 127);
    assert_eq!(r.frame_buffer[base + 1], 0);
    assert_eq!(r.frame_buffer[base + 2], 255);
    assert_eq!(r.frame_buffer[base + 3], 63);
    // Everything else untouched.
    for (i, &b) in r.frame_buffer.iter().enumerate() {
        if !(base..base + 4).contains(&i) {
            assert_eq!(b, 0);
        }
    }
}

#[test]
fn color_round_trip_is_consistent() {
    // floor(v * 255) for v = k / CHANNEL_ONE, twice with the same input.
    let color = Color::new(CHANNEL_ONE / 2, 0, 0, 0);
    for _ in 0..2 {
        let mut r = small_target();
        r.draw_pixel(&Pixel::new(0, 0), &color);
        let base = (0 + 3 * 4) * 4;
        assert_eq!(r.frame_buffer[base] as u32, (CHANNEL_ONE / 2) * 255 / CHANNEL_ONE);
        assert_eq!(r.frame_buffer[base], 127);
    }
}

#[test]
fn to_byte_truncates_and_saturates() {
    assert_eq!(Color::to_byte(0), 0);
    assert_eq!(Color::to_byte(CHANNEL_ONE / 2), 127);
    assert_eq!(Color::to_byte(CHANNEL_ONE - 1), 254);
    assert_eq!(Color::to_byte(CHANNEL_ONE), 255);
    assert_eq!(Color::to_byte(10 * CHANNEL_ONE), 255);
}

#[test]
fn draw_line_paints_clipped_horizontal_run() {
    let mut r = small_target();
    let color = Color::new(CHANNEL_ONE, CHANNEL_ONE, CHANNEL_ONE, CHANNEL_ONE);
    // Crosses the whole viewport at y = 2: pixels (0..=3, 2) get painted.
    r.draw_line(
        &Point2::new(-2 * PX, 2 * PX),
        &Point2::new(6 * PX, 2 * PX),
        &color,
    );
    for x in 0..4usize {
        let base = (x + (4 - 1 - 2) * 4) * 4;
        assert_eq!(r.frame_buffer[base], 255, "pixel {x} on the run");
    }
}

#[test]
fn draw_line_fully_outside_is_a_no_op() {
    let mut r = small_target();
    let before = r.frame_buffer.clone();
    let color = Color::new(CHANNEL_ONE, CHANNEL_ONE, CHANNEL_ONE, CHANNEL_ONE);
    r.draw_line(
        &Point2::new(10 * PX, 10 * PX),
        &Point2::new(20 * PX, 12 * PX),
        &color,
    );
    assert_eq!(r.frame_buffer, before);
}

struct FlatShader {
    color: Color,
}

impl Shader<Color> for FlatShader {
    fn vertex_shader(&self, index: usize) -> VertexFs<Color> {
        // A right triangle covering the lower-left of the viewport.
        let positions = [(0, 0), (3, 0), (0, 3)];
        let (x, y) = positions[index % 3];
        VertexFs {
            position: Point3::new(x * PX, y * PX, 0),
            attribute: self.color,
        }
    }

    fn fragment_shader(&self, vertex: VertexFs<Color>) -> Color {
        vertex.attribute
    }
}

#[test]
fn draw_paints_a_shaded_triangle() {
    let mut r = small_target();
    let shader = FlatShader { color: Color::new(CHANNEL_ONE, 0, 0, CHANNEL_ONE) };
    r.draw(&shader, 3);
    // The vertex pixel (0,0) is inside the fill: row 0 flips to row 3.
    let base = (0 + 3 * 4) * 4;
    assert_eq!(r.frame_buffer[base], 255);
    assert_eq!(r.frame_buffer[base + 3], 255);
    // A pixel outside the triangle stays black: (3,3), flipped row 0.
    let out = (3 + 0 * 4) * 4;
    assert_eq!(r.frame_buffer[out], 0);
}

#[test]
fn draw_skips_incomplete_trailing_group() {
    let mut r = small_target();
    let before = r.frame_buffer.clone();
    let shader = FlatShader { color: Color::new(CHANNEL_ONE, 0, 0, CHANNEL_ONE) };
    // Two vertices make no triangle: nothing is drawn.
    r.draw(&shader, 2);
    assert_eq!(r.frame_buffer, before);
}

#[test]
fn color_interpolation_averages_channels() {
    // Equal thirds of pure red, green, blue.
    let w = BaryCoord { alpha_num: 1, beta_num: 1, gamma_num: 1, denom: 3 };
    let r = Color::new(3 * CHANNEL_ONE / 4, 0, 0, CHANNEL_ONE);
    let g = Color::new(0, 3 * CHANNEL_ONE / 4, 0, CHANNEL_ONE);
    let b = Color::new(0, 0, 3 * CHANNEL_ONE / 4, CHANNEL_ONE);
    let mixed = Color::interpolate3(&r, &g, &b, &w);
    // Each channel lands near a quarter; rounding stays within a unit.
    for c in [mixed.r, mixed.g, mixed.b] {
        assert!((c as i64 - (CHANNEL_ONE / 4) as i64).abs() <= 2, "channel {c}");
    }
    assert!((mixed.a as i64 - CHANNEL_ONE as i64).abs() <= 2);
}
