//! Preconfigured devices: for each product its bus address, its dimensions
//! and the wiring of its LEDs.

use crate::bus::Bus;
use crate::driver::{checked_outcome, faithful, Error, PixelMap, IS31FL3731};
use crate::protocol::{
    lemma_completed_in_turn, lemma_interrupted_in_first, lemma_interrupted_in_rest, pixel_trace,
    rgb_trace,
};
use vstd::prelude::*;

verus! {

/// Adafruit CharliePlex LED Matrix Bonnet, 16 by 8.
pub struct CharlieBonnet;

/// Adafruit CharliePlex FeatherWing, 15 by 7.
pub struct CharlieWing;

/// Adafruit 16 by 9 Charlieplexed LED matrix.
pub struct Matrix;

/// Pimoroni Scroll pHAT HD, 17 by 7.
pub struct ScrollPhatHD;

impl PixelMap for CharlieBonnet {
    open spec fn covers(&self, x: u8, y: u8) -> bool {
        if x >= 8 {
            x <= 21 && y < (x - 6) * 16
        } else {
            y <= 7
        }
    }

    open spec fn offset(&self, x: u8, y: u8) -> u8 {
        if x >= 8 {
            ((x - 6) * 16 - (y + 1)) as u8
        } else {
            ((x + 1) * 16 + (7 - y)) as u8
        }
    }

    fn calc_pixel(&self, x: u8, y: u8) -> (offset: u8) {
        if x >= 8 {
            (x - 6) * 16 - (y + 1)
        } else {
            (x + 1) * 16 + (7 - y)
        }
    }
}

impl CharlieBonnet {
    /// A handle on the bonnet's chip at address `0x74` on `i2c`.
    pub fn configure<I2C: Bus>(i2c: I2C) -> (device: IS31FL3731<I2C, CharlieBonnet>)
        ensures
            device.fresh(i2c, 0x74, 16, 8),
            device.wf(),
            faithful(&device.calc_pixel, 16, 8),
    {
        IS31FL3731 { i2c, address: 0x74, frame: 0, width: 16, height: 8, calc_pixel: CharlieBonnet }
    }
}

/// On the bonnet's grid of 16 by 8, every position has a register of its own
/// within the color plane.
pub proof fn lemma_charlie_bonnet_faithful()
    ensures
        faithful(&CharlieBonnet, 16, 8),
{
}

impl PixelMap for CharlieWing {
    open spec fn covers(&self, x: u8, y: u8) -> bool {
        if x > 7 {
            x <= 15 && (15 - x) * 16 + (y + 8) <= u8::MAX
        } else {
            y <= 7
        }
    }

    open spec fn offset(&self, x: u8, y: u8) -> u8 {
        if x > 7 {
            ((15 - x) * 16 + (y + 8)) as u8
        } else {
            (x * 16 + (7 - y)) as u8
        }
    }

    fn calc_pixel(&self, x: u8, y: u8) -> (offset: u8) {
        let mut x = x;
        let mut y = y;
        if x > 7 {
            x = 15 - x;
            y += 8;
        } else {
            y = 7 - y
        }
        x * 16 + y
    }
}

impl CharlieWing {
    /// A handle on the wing's chip at address `0x74` on `i2c`.
    pub fn configure<I2C: Bus>(i2c: I2C) -> (device: IS31FL3731<I2C, CharlieWing>)
        ensures
            device.fresh(i2c, 0x74, 15, 7),
            device.wf(),
            faithful(&device.calc_pixel, 15, 7),
    {
        IS31FL3731 { i2c, address: 0x74, frame: 0, width: 15, height: 7, calc_pixel: CharlieWing }
    }
}

/// On the wing's grid of 15 by 7, every position has a register of its own
/// within the color plane.
pub proof fn lemma_charlie_wing_faithful()
    ensures
        faithful(&CharlieWing, 15, 7),
{
}

impl PixelMap for Matrix {
    open spec fn covers(&self, x: u8, y: u8) -> bool {
        x + y * 16 <= u8::MAX
    }

    open spec fn offset(&self, x: u8, y: u8) -> u8 {
        (x + y * 16) as u8
    }

    fn calc_pixel(&self, x: u8, y: u8) -> (offset: u8) {
        x + y * 16
    }
}

impl Matrix {
    /// A handle on the matrix's chip at address `0x74` on `i2c`.
    pub fn configure<I2C: Bus>(i2c: I2C) -> (device: IS31FL3731<I2C, Matrix>)
        ensures
            device.fresh(i2c, 0x74, 16, 9),
            device.wf(),
            faithful(&device.calc_pixel, 16, 9),
    {
        IS31FL3731 { i2c, address: 0x74, frame: 0, width: 16, height: 9, calc_pixel: Matrix }
    }
}

/// On the matrix's grid of 16 by 9, every position has a register of its own
/// within the color plane.
pub proof fn lemma_matrix_faithful()
    ensures
        faithful(&Matrix, 16, 9),
{
}

impl PixelMap for ScrollPhatHD {
    open spec fn covers(&self, x: u8, y: u8) -> bool {
        if x <= 8 {
            y <= 6
        } else {
            (x - 8) * 16 + y <= u8::MAX
        }
    }

    open spec fn offset(&self, x: u8, y: u8) -> u8 {
        if x <= 8 {
            ((8 - x) * 16 + (6 - y)) as u8
        } else {
            ((x - 8) * 16 + y - 8) as u8
        }
    }

    fn calc_pixel(&self, x: u8, y: u8) -> (offset: u8) {
        if x <= 8 {
            (8 - x) * 16 + (6 - y)
        } else {
            (x - 8) * 16 + y - 8
        }
    }
}

impl ScrollPhatHD {
    /// A handle on the pHAT's chip at address `0x74` on `i2c`.
    pub fn configure<I2C: Bus>(i2c: I2C) -> (device: IS31FL3731<I2C, ScrollPhatHD>)
        ensures
            device.fresh(i2c, 0x74, 17, 7),
            device.wf(),
            faithful(&device.calc_pixel, 17, 7),
    {
        IS31FL3731 { i2c, address: 0x74, frame: 0, width: 17, height: 7, calc_pixel: ScrollPhatHD }
    }
}

/// On the pHAT's grid of 17 by 7, every position has a register of its own
/// within the color plane.
pub proof fn lemma_scroll_phat_hd_faithful()
    ensures
        faithful(&ScrollPhatHD, 17, 7),
{
}

/// The wiring of the Pimoroni Keybow 2040: 16 keys of three LEDs each, red,
/// green and blue.
pub struct Keybow2040Wiring;

/// For each key of the Keybow 2040 the registers of its red, green and blue
/// LED.
pub open spec fn keybow_2040_table() -> Seq<Seq<u8>> {
    seq![
        seq![120u8, 88, 104],
        seq![136u8, 40, 72],
        seq![112u8, 80, 96],
        seq![128u8, 32, 64],
        seq![121u8, 89, 105],
        seq![137u8, 41, 73],
        seq![113u8, 81, 97],
        seq![129u8, 33, 65],
        seq![122u8, 90, 106],
        seq![138u8, 25, 74],
        seq![114u8, 82, 98],
        seq![130u8, 17, 66],
        seq![123u8, 91, 107],
        seq![139u8, 26, 75],
        seq![115u8, 83, 99],
        seq![131u8, 18, 67],
    ]
}

impl PixelMap for Keybow2040Wiring {
    open spec fn covers(&self, x: u8, y: u8) -> bool {
        x < 16 && y < 3
    }

    open spec fn offset(&self, x: u8, y: u8) -> u8 {
        if x < 16 && y < 3 {
            keybow_2040_table()[x as int][y as int]
        } else {
            0
        }
    }

    fn calc_pixel(&self, x: u8, y: u8) -> (offset: u8) {
        let lookup: [[u8; 3]; 16] = [
            [120, 88, 104],
            [136, 40, 72],
            [112, 80, 96],
            [128, 32, 64],
            [121, 89, 105],
            [137, 41, 73],
            [113, 81, 97],
            [129, 33, 65],
            [122, 90, 106],
            [138, 25, 74],
            [114, 82, 98],
            [130, 17, 66],
            [123, 91, 107],
            [139, 26, 75],
            [115, 83, 99],
            [131, 18, 67],
        ];
        lookup[x as usize][y as usize]
    }
}

/// On the Keybow's grid of 16 keys by 3 colors, every position has a
/// register of its own within the color plane.
pub proof fn lemma_keybow_2040_faithful()
    ensures
        faithful(&Keybow2040Wiring, 16, 3),
{
}

/// Sets the three LEDs in column `x` of rows 0, 1 and 2 to `r`, `g` and `b`,
/// stopping at the first that fails.
fn write_rgb<I2C: Bus, M: PixelMap>(
    device: &mut IS31FL3731<I2C, M>,
    x: u8,
    r: u8,
    g: u8,
    b: u8,
) -> (res: Result<(), Error<I2C::Error>>)
    requires
        old(device).height >= 2,
        x <= old(device).width ==> {
            &&& old(device).addressable(x, 0)
            &&& old(device).addressable(x, 1)
            &&& old(device).addressable(x, 2)
        },
    ensures
        final(device).same_settings(old(device)),
        x > old(device).width ==> {
            &&& res == Err::<(), Error<I2C::Error>>(Error::InvalidLocation(x))
            &&& final(device).i2c.trace() == old(device).i2c.trace()
        },
        x <= old(device).width ==> checked_outcome(
            res,
            old(device).i2c.trace(),
            final(device).i2c.trace(),
            rgb_trace(
                old(device).address,
                old(device).frame,
                old(device).calc_pixel.offset(x, 0),
                old(device).calc_pixel.offset(x, 1),
                old(device).calc_pixel.offset(x, 2),
                r,
                g,
                b,
            ),
        ),
{
    let ghost before = device.i2c.trace();
    let ghost red = pixel_trace(device.address, device.frame, device.calc_pixel.offset(x, 0), r);
    let ghost green = pixel_trace(device.address, device.frame, device.calc_pixel.offset(x, 1), g);
    let ghost blue = pixel_trace(device.address, device.frame, device.calc_pixel.offset(x, 2), b);
    match device.pixel(x, 0, r) {
        Err(e) => {
            proof {
                if x <= old(device).width {
                    lemma_interrupted_in_first(before, device.i2c.trace(), red, green + blue);
                    assert(red + (green + blue) =~= red + green + blue);
                }
            }
            return Err(e);
        },
        Ok(()) => {},
    }
    let ghost first = device.i2c.trace();
    match device.pixel(x, 1, g) {
        Err(e) => {
            proof {
                lemma_interrupted_in_rest(before, first, device.i2c.trace(), red, green);
                lemma_interrupted_in_first(before, device.i2c.trace(), red + green, blue);
            }
            return Err(e);
        },
        Ok(()) => {
            proof {
                lemma_completed_in_turn(before, first, device.i2c.trace(), red, green);
            }
        },
    }
    let ghost second = device.i2c.trace();
    match device.pixel(x, 2, b) {
        Err(e) => {
            proof {
                lemma_interrupted_in_rest(before, second, device.i2c.trace(), red + green, blue);
            }
            Err(e)
        },
        Ok(()) => {
            proof {
                lemma_completed_in_turn(before, second, device.i2c.trace(), red + green, blue);
            }
            Ok(())
        },
    }
}

/// Pimoroni Keybow 2040: a pad of 4 by 4 keys, each lit by three LEDs.
pub struct Keybow2040<I2C> {
    /// The chip behind the pad.
    pub device: IS31FL3731<I2C, Keybow2040Wiring>,
}

impl<I2C: Bus> Keybow2040<I2C> {
    /// The chip is set to the 16 keys and 3 colors of the pad.
    pub open spec fn wf(&self) -> bool {
        self.device.width == 16 && self.device.height == 3
    }

    /// The number under which the wiring knows the key in column `x` and
    /// row `y` of the pad.
    pub open spec fn key(x: u8, y: u8) -> int {
        4 * (3 - x) + y
    }

    /// The pad with its chip at address `0x74` on `i2c`.
    pub fn configure(i2c: I2C) -> (keybow: Self)
        ensures
            keybow.device.fresh(i2c, 0x74, 16, 3),
            keybow.device.wf(),
            keybow.wf(),
            faithful(&keybow.device.calc_pixel, 16, 3),
    {
        Keybow2040 {
            device: IS31FL3731 {
                i2c,
                address: 0x74,
                frame: 0,
                width: 16,
                height: 3,
                calc_pixel: Keybow2040Wiring,
            },
        }
    }

    /// Lights the key in column `x` and row `y` of the pad in the color
    /// `(r, g, b)`.
    ///
    /// A position whose key number lies above 16 is refused before anything
    /// is written.
    pub fn pixel_rgb(&mut self, x: u8, y: u8, r: u8, g: u8, b: u8) -> (res: Result<
        (),
        Error<I2C::Error>,
    >)
        requires
            old(self).wf(),
            x <= 3,
            Self::key(x, y) <= u8::MAX,
            Self::key(x, y) != 16,
        ensures
            final(self).wf(),
            final(self).device.same_settings(&old(self).device),
            Self::key(x, y) > 16 ==> {
                &&& res == Err::<(), Error<I2C::Error>>(
                    Error::InvalidLocation(Self::key(x, y) as u8),
                )
                &&& final(self).device.i2c.trace() == old(self).device.i2c.trace()
            },
            Self::key(x, y) < 16 ==> checked_outcome(
                res,
                old(self).device.i2c.trace(),
                final(self).device.i2c.trace(),
                rgb_trace(
                    old(self).device.address,
                    old(self).device.frame,
                    keybow_2040_table()[Self::key(x, y)][0],
                    keybow_2040_table()[Self::key(x, y)][1],
                    keybow_2040_table()[Self::key(x, y)][2],
                    r,
                    g,
                    b,
                ),
            ),
    {
        let x: u8 = (4 * (3 - x)) + y;
        write_rgb(&mut self.device, x, r, g, b)
    }
}

/// The wiring of the Pimoroni RGB Matrix 5x5: 25 pixels of three LEDs each,
/// red, green and blue.
pub struct RGBMatrix5x5Wiring;

/// For each pixel of the RGB Matrix 5x5 the registers of its red, green and
/// blue LED.
pub open spec fn rgb_matrix_5x5_table() -> Seq<Seq<u8>> {
    seq![
        seq![118u8, 69, 85],
        seq![117u8, 68, 101],
        seq![116u8, 84, 100],
        seq![115u8, 83, 99],
        seq![114u8, 82, 98],
        seq![132u8, 19, 35],
        seq![133u8, 20, 36],
        seq![134u8, 21, 37],
        seq![112u8, 80, 96],
        seq![113u8, 81, 97],
        seq![131u8, 18, 34],
        seq![130u8, 17, 50],
        seq![129u8, 33, 49],
        seq![128u8, 32, 48],
        seq![127u8, 47, 63],
        seq![125u8, 28, 44],
        seq![124u8, 27, 43],
        seq![123u8, 26, 42],
        seq![122u8, 25, 58],
        seq![121u8, 41, 57],
        seq![126u8, 29, 45],
        seq![15u8, 95, 111],
        seq![8u8, 89, 105],
        seq![9u8, 90, 106],
        seq![10u8, 91, 107],
    ]
}

impl PixelMap for RGBMatrix5x5Wiring {
    open spec fn covers(&self, x: u8, y: u8) -> bool {
        x < 25 && y < 3
    }

    open spec fn offset(&self, x: u8, y: u8) -> u8 {
        if x < 25 && y < 3 {
            rgb_matrix_5x5_table()[x as int][y as int]
        } else {
            0
        }
    }

    fn calc_pixel(&self, x: u8, y: u8) -> (offset: u8) {
        let lookup: [[u8; 3]; 25] = [
            [118, 69, 85],
            [117, 68, 101],
            [116, 84, 100],
            [115, 83, 99],
            [114, 82, 98],
            [132, 19, 35],
            [133, 20, 36],
            [134, 21, 37],
            [112, 80, 96],
            [113, 81, 97],
            [131, 18, 34],
            [130, 17, 50],
            [129, 33, 49],
            [128, 32, 48],
            [127, 47, 63],
            [125, 28, 44],
            [124, 27, 43],
            [123, 26, 42],
            [122, 25, 58],
            [121, 41, 57],
            [126, 29, 45],
            [15, 95, 111],
            [8, 89, 105],
            [9, 90, 106],
            [10, 91, 107],
        ];
        lookup[x as usize][y as usize]
    }
}

/// On the matrix's grid of 25 pixels by 3 colors, every position has a
/// register of its own within the color plane.
pub proof fn lemma_rgb_matrix_5x5_faithful()
    ensures
        faithful(&RGBMatrix5x5Wiring, 25, 3),
{
}

/// Pimoroni RGB Matrix 5x5: a square of 5 by 5 pixels, each lit by three
/// LEDs.
pub struct RGBMatrix5x5<I2C> {
    /// The chip behind the square.
    pub device: IS31FL3731<I2C, RGBMatrix5x5Wiring>,
}

impl<I2C: Bus> RGBMatrix5x5<I2C> {
    /// The chip is set to the 25 pixels and 3 colors of the matrix.
    pub open spec fn wf(&self) -> bool {
        self.device.width == 25 && self.device.height == 3
    }

    /// The number under which the wiring knows the pixel in column `x` and
    /// row `y` of the square.
    pub open spec fn led(x: u8, y: u8) -> int {
        x + y * 5
    }

    /// The square with its chip at address `0x75` on `i2c`.
    pub fn configure(i2c: I2C) -> (matrix: Self)
        ensures
            matrix.device.fresh(i2c, 0x75, 25, 3),
            matrix.device.wf(),
            matrix.wf(),
            faithful(&matrix.device.calc_pixel, 25, 3),
    {
        RGBMatrix5x5 {
            device: IS31FL3731 {
                i2c,
                address: 0x75,
                frame: 0,
                width: 25,
                height: 3,
                calc_pixel: RGBMatrix5x5Wiring,
            },
        }
    }

    /// Lights the pixel in column `x` and row `y` of the square in the color
    /// `(r, g, b)`.
    ///
    /// A position whose pixel number lies above 25 is refused before
    /// anything is written.
    pub fn pixel_rgb(&mut self, x: u8, y: u8, r: u8, g: u8, b: u8) -> (res: Result<
        (),
        Error<I2C::Error>,
    >)
        requires
            old(self).wf(),
            Self::led(x, y) <= u8::MAX,
            Self::led(x, y) != 25,
        ensures
            final(self).wf(),
            final(self).device.same_settings(&old(self).device),
            Self::led(x, y) > 25 ==> {
                &&& res == Err::<(), Error<I2C::Error>>(
                    Error::InvalidLocation(Self::led(x, y) as u8),
                )
                &&& final(self).device.i2c.trace() == old(self).device.i2c.trace()
            },
            Self::led(x, y) < 25 ==> checked_outcome(
                res,
                old(self).device.i2c.trace(),
                final(self).device.i2c.trace(),
                rgb_trace(
                    old(self).device.address,
                    old(self).device.frame,
                    rgb_matrix_5x5_table()[Self::led(x, y)][0],
                    rgb_matrix_5x5_table()[Self::led(x, y)][1],
                    rgb_matrix_5x5_table()[Self::led(x, y)][2],
                    r,
                    g,
                    b,
                ),
            ),
    {
        let x: u8 = x + y * 5;
        write_rgb(&mut self.device, x, r, g, b)
    }
}

/// The wiring of the Pimoroni LED SHIM: a strip of 28 pixels of three LEDs
/// each, red, green and blue.
pub struct LEDShimWiring;

impl PixelMap for LEDShimWiring {
    open spec fn covers(&self, x: u8, y: u8) -> bool {
        y == 1 ==> x <= 205
    }

    open spec fn offset(&self, x: u8, y: u8) -> u8 {
        if y == 0 {
            if x < 7 {
                (118 - x) as u8
            } else if x < 15 {
                (141 - x) as u8
            } else if x < 21 {
                (106 + x) as u8
            } else if x == 21 {
                14
            } else {
                (x - 14) as u8
            }
        } else if y == 1 {
            if x < 2 {
                (69 - x) as u8
            } else if x < 7 {
                (86 - x) as u8
            } else if x < 12 {
                (28 - x) as u8
            } else if x < 14 {
                (45 - x) as u8
            } else if x == 14 {
                47
            } else if x == 15 {
                41
            } else if x < 21 {
                (x + 9) as u8
            } else if x == 21 {
                95
            } else if x < 26 {
                (x + 67) as u8
            } else {
                (x + 50) as u8
            }
        } else {
            if x == 0 {
                85
            } else if x < 7 {
                (102 - x) as u8
            } else if x < 11 {
                (44 - x) as u8
            } else if x == 14 {
                63
            } else if x < 17 {
                (42 + x) as u8
            } else if x < 21 {
                (x + 25) as u8
            } else if x == 21 {
                111
            } else if x < 27 {
                (x + 83) as u8
            } else {
                93
            }
        }
    }

    fn calc_pixel(&self, x: u8, y: u8) -> (offset: u8) {
        if y == 0 {
            if x < 7 {
                return 118 - x;
            }
            if x < 15 {
                return 141 - x;
            }
            if x < 21 {
                return 106 + x;
            }
            if x == 21 {
                return 14;
            }
            return x - 14;
        }
        if y == 1 {
            if x < 2 {
                return 69 - x;
            }
            if x < 7 {
                return 86 - x;
            }
            if x < 12 {
                return 28 - x;
            }
            if x < 14 {
                return 45 - x;
            }
            if x == 14 {
                return 47;
            }
            if x == 15 {
                return 41;
            }
            if x < 21 {
                return x + 9;
            }
            if x == 21 {
                return 95;
            }
            if x < 26 {
                return x + 67;
            }
            return x + 50;
        }
        if x == 0 {
            return 85;
        }
        if x < 7 {
            return 102 - x;
        }
        if x < 11 {
            return 44 - x;
        }
        if x == 14 {
            return 63;
        }
        if x < 17 {
            return 42 + x;
        }
        if x < 21 {
            return x + 25;
        }
        if x == 21 {
            return 111;
        }
        if x < 27 {
            return x + 83;
        }
        93
    }
}

/// On the strip's grid of 28 pixels by 3 colors, every position has a
/// register of its own within the color plane.
pub proof fn lemma_led_shim_faithful()
    ensures
        faithful(&LEDShimWiring, 28, 3),
{
}

/// Pimoroni LED SHIM: a strip of 28 pixels, each lit by three LEDs.
pub struct LEDShim<I2C> {
    /// The chip behind the strip.
    pub device: IS31FL3731<I2C, LEDShimWiring>,
}

impl<I2C: Bus> LEDShim<I2C> {
    /// The chip is set to the 28 pixels and 3 colors of the strip.
    pub open spec fn wf(&self) -> bool {
        self.device.width == 28 && self.device.height == 3
    }

    /// The strip with its chip at address `0x75` on `i2c`.
    pub fn configure(i2c: I2C) -> (shim: Self)
        ensures
            shim.device.fresh(i2c, 0x75, 28, 3),
            shim.device.wf(),
            shim.wf(),
            faithful(&shim.device.calc_pixel, 28, 3),
    {
        LEDShim {
            device: IS31FL3731 {
                i2c,
                address: 0x75,
                frame: 0,
                width: 28,
                height: 3,
                calc_pixel: LEDShimWiring,
            },
        }
    }

    /// Lights pixel `x` of the strip in the color `(r, g, b)`.
    ///
    /// An `x` above 28 is refused before anything is written.
    pub fn pixel_rgb(&mut self, x: u8, r: u8, g: u8, b: u8) -> (res: Result<(), Error<I2C::Error>>)
        requires
            old(self).wf(),
        ensures
            final(self).wf(),
            final(self).device.same_settings(&old(self).device),
            x > 28 ==> {
                &&& res == Err::<(), Error<I2C::Error>>(Error::InvalidLocation(x))
                &&& final(self).device.i2c.trace() == old(self).device.i2c.trace()
            },
            x <= 28 ==> checked_outcome(
                res,
                old(self).device.i2c.trace(),
                final(self).device.i2c.trace(),
                rgb_trace(
                    old(self).device.address,
                    old(self).device.frame,
                    LEDShimWiring.offset(x, 0),
                    LEDShimWiring.offset(x, 1),
                    LEDShimWiring.offset(x, 2),
                    r,
                    g,
                    b,
                ),
            ),
    {
        write_rgb(&mut self.device, x, r, g, b)
    }
}

} // verus!
