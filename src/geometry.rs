//! The stereo geometry calculator: the field of view of a frame and the
//! working distance at which a chosen on-screen separation arises.
use vstd::prelude::*;
use crate::length::{Length, Ratio, shorter};
use crate::parse::{ParseError, parse_length};

verus! {

/// Average human interocular distance, 6.2 cm, in nanometres.
pub const EYE_SEPARATION_NM: i64 = 62_000_000;

/// The average human interocular distance.
pub fn eye_separation() -> (r: Length)
    ensures
        r@ == EYE_SEPARATION_NM,
{
    Length::from_nanometers(EYE_SEPARATION_NM)
}

/// The tangent of half the field of view of a frame `image_width` by
/// `image_height` seen from `face_distance`: the narrower side over twice the
/// distance. The field of view is twice its arctangent.
pub fn half_fov_tangent(image_width: Length, image_height: Length, face_distance: Length) -> (r:
    Ratio)
    ensures
        r.num == shorter(image_width, image_height)@,
        r.den == 2 * face_distance@,
{
    let narrow = image_width.min(image_height);
    Ratio { num: narrow.nanometers as i128, den: 2 * face_distance.nanometers as i128 }
}

/// The distance, in nanometres, at which an object shows `separation`
/// between the two views: `eye_separation * face_distance / (eye_separation
/// - separation)`. A separation equal to the eye separation gives a zero
/// denominator: the object is infinitely far.
pub fn distance_for_separation(separation: Length, eye_separation: Length, face_distance: Length) -> (r:
    Ratio)
    ensures
        r.num == eye_separation@ * face_distance@,
        r.den == eye_separation@ - separation@,
{
    let e = eye_separation.nanometers as i128;
    let f = face_distance.nanometers as i128;
    assert(-0x8000_0000_0000_0000 * 0x7fff_ffff_ffff_ffff <= e * f <= 0x8000_0000_0000_0000
        * 0x8000_0000_0000_0000) by (nonlinear_arith)
        requires
            -0x8000_0000_0000_0000 <= e <= 0x7fff_ffff_ffff_ffff,
            -0x8000_0000_0000_0000 <= f <= 0x7fff_ffff_ffff_ffff,
    ;
    Ratio { num: e * f, den: e - separation.nanometers as i128 }
}

/// What the calculator derives from its five lengths.
#[derive(Clone, Copy, Debug, PartialEq, Eq, Structural)]
pub struct Geometry {
    /// Tangent of half the camera's field of view.
    pub half_fov_tangent: Ratio,
    /// Distance in nanometres for the smallest separation.
    pub min_distance: Ratio,
    /// Distance in nanometres for the largest separation.
    pub max_distance: Ratio,
}

/// Why the five lengths could not be had.
#[derive(Clone, Copy, Debug, PartialEq, Eq, Structural)]
pub enum InputError {
    /// Not exactly five arguments were given; holds how many were.
    ArgumentCount(usize),
    /// The argument at `position` (from zero) is not a length.
    Parse { position: usize, error: ParseError },
}

/// Number of lengths the calculator takes: face distance, image width, image
/// height, smallest and largest separation, in that order.
pub const ARGUMENT_COUNT: usize = 5;

/// `g` is what the calculator derives from the five lengths, in nanometres.
pub open spec fn geometry_of(
    g: Geometry,
    face: int,
    width: int,
    height: int,
    min_sep: int,
    max_sep: int,
) -> bool {
    &&& g.half_fov_tangent.num == (if width <= height {
        width
    } else {
        height
    })
    &&& g.half_fov_tangent.den == 2 * face
    &&& g.min_distance.num == EYE_SEPARATION_NM * face
    &&& g.min_distance.den == EYE_SEPARATION_NM - min_sep
    &&& g.max_distance.num == EYE_SEPARATION_NM * face
    &&& g.max_distance.den == EYE_SEPARATION_NM - max_sep
}

/// The argument at `i` reads as a length.
pub open spec fn reads_ok(args: Seq<String>, i: int) -> bool {
    parse_length(args[i]@) is Ok
}

/// The nanometres that the argument at `i` reads as.
pub open spec fn read_nm(args: Seq<String>, i: int) -> int {
    parse_length(args[i]@)->Ok_0
}

/// Reads the five lengths `args` (face distance, image width, image height,
/// smallest and largest separation) and derives the field of view and the two
/// working distances. Fails on the wrong number of arguments, or on the first
/// argument, from the left, that is not a length.
pub fn stereo_geometry(args: &Vec<String>) -> (r: Result<Geometry, InputError>)
    ensures
        args@.len() != ARGUMENT_COUNT ==> r == Err::<Geometry, InputError>(
            InputError::ArgumentCount(args@.len() as usize),
        ),
        args@.len() == ARGUMENT_COUNT ==> match r {
            Ok(g) => (forall|i: int| 0 <= i < 5 ==> reads_ok(args@, i)) && geometry_of(
                g,
                read_nm(args@, 0),
                read_nm(args@, 1),
                read_nm(args@, 2),
                read_nm(args@, 3),
                read_nm(args@, 4),
            ),
            Err(InputError::ArgumentCount(_)) => false,
            Err(InputError::Parse { position, error }) => {
                &&& position < 5
                &&& parse_length(args@[position as int]@) == Err::<int, ParseError>(error)
                &&& forall|j: int| 0 <= j < position ==> reads_ok(args@, j)
            },
        },
{
    if args.len() != ARGUMENT_COUNT {
        return Err(InputError::ArgumentCount(args.len()));
    }
    let mut lengths: Vec<Length> = Vec::new();
    let mut i: usize = 0;
    while i < ARGUMENT_COUNT
        invariant
            args@.len() == ARGUMENT_COUNT,
            i <= ARGUMENT_COUNT,
            lengths@.len() == i,
            forall|j: int|
                0 <= j < i ==> parse_length(args@[j]@) == Ok::<int, ParseError>(
                    #[trigger] lengths@[j]@,
                ),
        decreases ARGUMENT_COUNT - i,
    {
        match Length::try_from_str(args[i].as_str()) {
            Ok(l) => lengths.push(l),
            Err(error) => {
                assert forall|j: int| 0 <= j < i implies #[trigger] reads_ok(args@, j) by {
                    assert(parse_length(args@[j]@) == Ok::<int, ParseError>(lengths@[j]@));
                }
                return Err(InputError::Parse { position: i, error });
            },
        }
        i = i + 1;
    }
    let face_distance = lengths[0];
    let image_width = lengths[1];
    let image_height = lengths[2];
    let min_separation = lengths[3];
    let max_separation = lengths[4];
    let eye = eye_separation();
    let g = Geometry {
        half_fov_tangent: half_fov_tangent(image_width, image_height, face_distance),
        min_distance: distance_for_separation(min_separation, eye, face_distance),
        max_distance: distance_for_separation(max_separation, eye, face_distance),
    };
    assert(forall|j: int| 0 <= j < 5 ==> reads_ok(args@, j) && read_nm(args@, j) == lengths@[j]@);
    Ok(g)
}

} // verus!
