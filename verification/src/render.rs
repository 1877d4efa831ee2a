//! What the screen shader is told.

use vstd::prelude::*;
use crate::bytes::bytes_in_order;
#[allow(unused_imports)]
use crate::bytes::word_bytes;
use crate::camera::Camera;
use crate::single::{Point, Single};
use crate::world::{HEIGHT, WIDTH};

verus! {

/// Words in the view's uniforms.
pub const VIEW_WORDS: usize = 12;

/// The uniforms of the view: world size, screen size, camera, brush radius and
/// position, whether to show the brush, and a word of padding.
pub open spec fn view_params(
    screen: Point,
    camera: Camera,
    brush_pos: Point,
    brush_radius: Single,
    brush_visible: bool,
) -> Seq<u32> {
    seq![
        WIDTH,
        HEIGHT,
        screen.x.bits,
        screen.y.bits,
        camera.centre.x.bits,
        camera.centre.y.bits,
        camera.zoom.bits,
        brush_radius.bits,
        brush_pos.x.bits,
        brush_pos.y.bits,
        if brush_visible {
            1u32
        } else {
            0u32
        },
        0u32,
    ]
}

/// The view's uniforms as bytes, in the given byte order.
pub fn view_uniform(
    screen: Point,
    camera: &Camera,
    brush_pos: Point,
    brush_radius: Single,
    brush_visible: bool,
    little: bool,
) -> (bytes: Vec<u8>)
    ensures
        bytes@ == word_bytes(
            view_params(screen, *camera, brush_pos, brush_radius, brush_visible),
            little,
        ),
{
    let show: u32 = if brush_visible {
        1
    } else {
        0
    };
    let words: Vec<u32> = vec![
        WIDTH,
        HEIGHT,
        screen.x.bits,
        screen.y.bits,
        camera.centre.x.bits,
        camera.centre.y.bits,
        camera.zoom.bits,
        brush_radius.bits,
        brush_pos.x.bits,
        brush_pos.y.bits,
        show,
        0,
    ];
    assert(words@ =~= view_params(screen, *camera, brush_pos, brush_radius, brush_visible));
    bytes_in_order(words.as_slice(), little)
}

/// The view's uniforms carry the camera's centre and zoom, the screen's size and
/// the brush, each in words of its own, next to the world's size.
pub proof fn law_uniforms_show_the_view(
    screen: Point,
    camera: Camera,
    brush_pos: Point,
    brush_radius: Single,
    brush_visible: bool,
)
    ensures
        ({
            let w = view_params(screen, camera, brush_pos, brush_radius, brush_visible);
            &&& w.len() == VIEW_WORDS
            &&& w[0] == 4096 && w[1] == 2048
            &&& w[2] == screen.x.bits && w[3] == screen.y.bits
            &&& w[4] == camera.centre.x.bits && w[5] == camera.centre.y.bits
            &&& w[6] == camera.zoom.bits
            &&& w[7] == brush_radius.bits
            &&& w[8] == brush_pos.x.bits && w[9] == brush_pos.y.bits
            &&& w[10] == 1 <==> brush_visible
            &&& w[10] == 0 <==> !brush_visible
        }),
{
}

/// Moving or zooming the camera, resizing the screen, moving, resizing, showing
/// or hiding the brush each change the uniforms: equal ones mean equal views.
pub proof fn law_views_are_told_apart(
    screen: Point,
    camera: Camera,
    brush_pos: Point,
    brush_radius: Single,
    brush_visible: bool,
    other_screen: Point,
    other: Camera,
    other_pos: Point,
    other_radius: Single,
    other_visible: bool,
)
    requires
        view_params(screen, camera, brush_pos, brush_radius, brush_visible) == view_params(
            other_screen,
            other,
            other_pos,
            other_radius,
            other_visible,
        ),
    ensures
        camera == other,
        screen == other_screen,
        brush_pos == other_pos,
        brush_radius == other_radius,
        brush_visible == other_visible,
{
    let v = view_params(screen, camera, brush_pos, brush_radius, brush_visible);
    let w = view_params(other_screen, other, other_pos, other_radius, other_visible);
    assert(v[2] == w[2] && v[3] == w[3] && v[4] == w[4] && v[5] == w[5] && v[6] == w[6] && v[7]
        == w[7] && v[8] == w[8] && v[9] == w[9] && v[10] == w[10]);
}

} // verus!
