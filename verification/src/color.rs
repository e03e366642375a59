//! The intensity-to-colour ramp.
use vstd::prelude::*;

verus! {

/// `x` limited to the range of a byte.
pub open spec fn clamp_byte(x: int) -> int {
    if x < 0 {
        0
    } else if x > 255 {
        255
    } else {
        x
    }
}

/// Limits `x` to `0..=255`.
pub fn to_u8(x: i32) -> (byte: u8)
    ensures
        byte as int == clamp_byte(x as int),
{
    if x < 0 {
        0
    } else if x > 255 {
        255
    } else {
        x as u8
    }
}

/// Three halves of `k`, rounded toward zero.
pub open spec fn three_halves(k: int) -> int {
    if k >= 0 {
        (3 * k) / 2
    } else {
        -((3 * -k) / 2)
    }
}

/// The green channel of intensity `n`: twice the intensity, limited to a byte.
pub open spec fn green_level(n: int) -> int {
    clamp_byte(2 * n)
}

/// The red and the blue channel of intensity `n`: one and a half times what
/// lies above the middle of the range, limited to a byte.
pub open spec fn red_blue_level(n: int) -> int {
    clamp_byte(three_halves(n - 128))
}

/// The colour of intensity `n`, as (red, green, blue).
pub open spec fn intensity_color(n: u8) -> (u8, u8, u8) {
    (red_blue_level(n as int) as u8, green_level(n as int) as u8, red_blue_level(n as int) as u8)
}

/// Computes the colour of one intensity.
pub fn color_of(n: u8) -> (color: (u8, u8, u8))
    ensures
        color == intensity_color(n),
{
    let level: i32 = n as i32;
    let green: u8 = to_u8(level * 2);
    let above: i32 = level - 128;
    let scaled: i32 = if above >= 0 {
        (3 * above) / 2
    } else {
        -((3 * (-above)) / 2)
    };
    let red_blue: u8 = to_u8(scaled);
    (red_blue, green, red_blue)
}

/// The colours of all 256 intensities, in the order of the intensities.
pub open spec fn color_ramp() -> Seq<(u8, u8, u8)> {
    Seq::new(256, |n: int| intensity_color(n as u8))
}

/// The colour of every intensity, computed once and then only read.
pub struct IntensityColorTable {
    colors: Vec<(u8, u8, u8)>,
}

impl View for IntensityColorTable {
    type V = Seq<(u8, u8, u8)>;

    /// The colours, in the order of the intensities.
    closed spec fn view(&self) -> Seq<(u8, u8, u8)> {
        self.colors@
    }
}

impl IntensityColorTable {
    #[verifier::type_invariant]
    spec fn holds_the_ramp(&self) -> bool {
        self.colors@ == color_ramp()
    }

    /// Builds the table, one entry for each of the 256 intensities.
    pub fn new() -> (table: IntensityColorTable)
        ensures
            table@ == color_ramp(),
    {
        let mut colors: Vec<(u8, u8, u8)> = Vec::new();
        let mut n: u8 = 0;
        while n < 255
            invariant
                colors@.len() == n as int,
                forall|m: int| 0 <= m < n ==> #[trigger] colors@[m] == intensity_color(m as u8),
            decreases 255 - n,
        {
            colors.push(color_of(n));
            n = n + 1;
        }
        colors.push(color_of(255));
        assert(colors@ =~= color_ramp());
        IntensityColorTable { colors }
    }

    /// The colour of `intensity`.
    pub fn color(&self, intensity: u8) -> (color: (u8, u8, u8))
        ensures
            color == intensity_color(intensity),
            color == self@[intensity as int],
    {
        proof {
            use_type_invariant(self);
        }
        self.colors[intensity as usize]
    }
}

/// The ramp only rises. Green never falls as the intensity grows, and is
/// full from 128 on. Red and blue are dark up to 128, never fall above it and
/// are held at 255 wherever three halves of the excess go beyond. Red and
/// blue are always the same.
pub proof fn lemma_color_ramp_is_monotonic(n: int, m: int)
    requires
        n <= m,
    ensures
        0 <= green_level(n) <= green_level(m) <= 255,
        0 <= red_blue_level(n) <= red_blue_level(m) <= 255,
        n <= 128 ==> red_blue_level(n) == 0,
        n >= 128 ==> green_level(n) == 255,
        n >= 298 ==> red_blue_level(n) == 255,
{
}

/// The colours of two intensities of the table stand in the order of the
/// intensities, channel by channel, and red equals blue.
pub proof fn lemma_intensity_color_is_monotonic(n: u8, m: u8)
    requires
        n <= m,
    ensures
        intensity_color(n).0 <= intensity_color(m).0,
        intensity_color(n).1 <= intensity_color(m).1,
        intensity_color(n).2 <= intensity_color(m).2,
        intensity_color(n).0 == intensity_color(n).2,
        n <= 128 ==> intensity_color(n).0 == 0,
        n >= 128 ==> intensity_color(n).1 == 255,
{
    lemma_color_ramp_is_monotonic(n as int, m as int);
}

} // verus!
