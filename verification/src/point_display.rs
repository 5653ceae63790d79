use vstd::prelude::*;
use crate::constants::{DISPLAY_COEFFICENT, MID_LINE_WIDTH, WINDOW_WIDTH};
use crate::rect::Rect;
use crate::team::TeamName;

verus! {

/// How many pixels wide a character is drawn.
pub const X_PIXEL: u32 = 5;

/// How many pixels high a character is drawn.
pub const Y_PIXEL: u32 = 7;

/// The characters that can be shown, each with its picture: `Y_PIXEL` rows of
/// `X_PIXEL` pixels, the upper left pixel in the lowest bit and the rows one
/// after the other.
pub const GLYPHS: [(char, u64); 36] = [
    ('0', 0b01110100011001110101110011000101110),
    ('1', 0b01110001000010000100001000011000100),
    ('2', 0b11111000010001001100100001000101110),
    ('3', 0b01110100011000001100100001000101110),
    ('4', 0b01000010001111101001010100110001000),
    ('5', 0b01110100011000010000011110000111111),
    ('6', 0b01110100011000101111000011000101110),
    ('7', 0b00001000010001000100010001000011111),
    ('8', 0b01110100011000101110100011000101110),
    ('9', 0b01110100011000011110100011000101110),
    ('a', 0b10001100011000111111100011000111110),
    ('b', 0b01111100011000101111100011000101111),
    ('c', 0b01110100010000100001000011000101110),
    ('d', 0b01111100011000110001100011000101111),
    ('e', 0b11111000010000101111000010000111111),
    ('f', 0b00001000010000101111000010000111111),
    ('g', 0b01110100011100100001000011000101110),
    ('h', 0b10001100011000111111100011000110001),
    ('i', 0b01110001000010000100001000010001110),
    ('j', 0b01110100011000110000100001000011000),
    ('k', 0b10001010010010100011001010100110001),
    ('l', 0b11111000010000100001000010000100001),
    ('m', 0b10001100011000110001101011101110001),
    ('n', 0b10001100011100110101100111000110001),
    ('o', 0b01110100011000110001100011000101110),
    ('p', 0b00001000010000101111100011000101111),
    ('q', 0b10110010011010110001100011000101110),
    ('r', 0b10001100011000101111100011000101111),
    ('s', 0b01110100011000001110000011000101110),
    ('t', 0b00100001000010000100001000010011111),
    ('u', 0b01110100011000110001100011000110001),
    ('v', 0b00100010101000110001100011000110001),
    ('w', 0b01010101011010110001100011000110001),
    ('x', 0b10001100010101000100010101000110001),
    ('y', 0b00100001000010000100010101000110001),
    ('z', 0b11111000010001000100010001000011111),
];

/// The picture of the character `c`, if it can be shown: that of the first
/// entry of `GLYPHS` for `c`.
pub fn glyph(c: char) -> (r: Option<u64>)
    ensures
        match r {
            Some(bits) => exists|k: int|
                0 <= k < 36 && #[trigger] GLYPHS[k] == (c, bits) && forall|j: int|
                    0 <= j < k ==> (#[trigger] GLYPHS[j]).0 != c,
            None => forall|k: int| 0 <= k < 36 ==> (#[trigger] GLYPHS[k]).0 != c,
        },
{
    let mut i: usize = 0;
    while i < 36
        invariant
            i <= 36,
            forall|k: int| 0 <= k < i ==> (#[trigger] GLYPHS[k]).0 != c,
        decreases 36 - i,
    {
        if GLYPHS[i].0 == c {
            return Some(GLYPHS[i].1);
        }
        i += 1;
    }
    None
}

/// Whether the pixel in column `col` of row `row` of a picture is lit.
pub open spec fn is_lit(bits: u64, col: u32, row: u32) -> bool {
    (bits >> ((row * X_PIXEL + col) as u64)) & 1 == 1
}

/// Whether the pixel in column `col` of row `row` of a picture is lit.
pub fn lit(bits: u64, col: u32, row: u32) -> (r: bool)
    requires
        col < X_PIXEL,
        row < Y_PIXEL,
    ensures
        r == is_lit(bits, col, row),
{
    (bits >> ((row * X_PIXEL + col) as u64)) & 1 == 1
}

/// The character of a decimal digit.
pub open spec fn digit_char(d: int) -> char {
    if d == 0 {
        '0'
    } else if d == 1 {
        '1'
    } else if d == 2 {
        '2'
    } else if d == 3 {
        '3'
    } else if d == 4 {
        '4'
    } else if d == 5 {
        '5'
    } else if d == 6 {
        '6'
    } else if d == 7 {
        '7'
    } else if d == 8 {
        '8'
    } else {
        '9'
    }
}

/// The decimal digits of a number, the highest first.
pub open spec fn digits_of(n: nat) -> Seq<char>
    decreases n,
{
    if n < 10 {
        seq![digit_char(n as int)]
    } else {
        digits_of(n / 10).push(digit_char((n % 10) as int))
    }
}

/// A number has at least one digit, and one below ten thousand at most four.
/// A number below a hundred has its tens, if any, and its units.
pub proof fn lemma_digits_count(n: nat)
    ensures
        digits_of(n).len() >= 1,
        n < 10 ==> digits_of(n) == seq![digit_char(n as int)],
        10 <= n < 100 ==> digits_of(n) == seq![
            digit_char((n / 10) as int),
            digit_char((n % 10) as int),
        ],
        100 <= n < 1000 ==> digits_of(n).len() == 3,
        1000 <= n < 10000 ==> digits_of(n).len() == 4,
        n >= 10000 ==> digits_of(n).len() >= 5,
    decreases n,
{
    if n >= 10 {
        lemma_digits_count(n / 10);
    }
    if 10 <= n < 100 {
        assert(digits_of(n) =~= seq![digit_char((n / 10) as int), digit_char((n % 10) as int)]);
    }
}

fn digit(d: u32) -> (c: char)
    requires
        d < 10,
    ensures
        c == digit_char(d as int),
{
    if d == 0 {
        '0'
    } else if d == 1 {
        '1'
    } else if d == 2 {
        '2'
    } else if d == 3 {
        '3'
    } else if d == 4 {
        '4'
    } else if d == 5 {
        '5'
    } else if d == 6 {
        '6'
    } else if d == 7 {
        '7'
    } else if d == 8 {
        '8'
    } else {
        '9'
    }
}

/// The decimal digits of a number, the highest first.
pub fn digits(n: u32) -> (v: Vec<char>)
    ensures
        v@ == digits_of(n as nat),
        n < 10 ==> v@ == seq![digit_char(n as int)],
        10 <= n < 100 ==> v@ == seq![digit_char((n / 10) as int), digit_char((n % 10) as int)],
{
    proof {
        lemma_digits_count(n as nat);
    }
    let mut v: Vec<char> = Vec::new();
    v.push(digit(n % 10));
    let mut rest: u32 = n / 10;
    assert(digits_of(n as nat) =~= if rest > 0 {
        digits_of(rest as nat) + v@
    } else {
        v@
    });
    while rest > 0
        invariant
            v@.len() >= 1,
            digits_of(n as nat) == if rest > 0 {
                digits_of(rest as nat) + v@
            } else {
                v@
            },
        decreases rest,
    {
        let ghost before = v@;
        v.insert(0, digit(rest % 10));
        assert(v@ =~= seq![digit_char((rest % 10) as int)] + before);
        assert(digits_of(rest as nat) + before =~= if rest / 10 > 0 {
            digits_of((rest / 10) as nat) + v@
        } else {
            v@
        });
        rest = rest / 10;
    }
    v
}

/// Where the digit at place `i` of the right team's points is drawn; the
/// places count from the middle line outward.
pub open spec fn rect_right(i: int) -> Rect {
    Rect::placed(
        (WINDOW_WIDTH + MID_LINE_WIDTH) / 2 + DISPLAY_COEFFICENT * (1 + i * (1 + X_PIXEL)),
        DISPLAY_COEFFICENT as int,
        DISPLAY_COEFFICENT * X_PIXEL,
        DISPLAY_COEFFICENT * Y_PIXEL,
    )
}

/// Where the digit at place `i` of the left team's points is drawn; the
/// places count from the middle line outward.
pub open spec fn rect_left(i: int) -> Rect {
    Rect::placed(
        (WINDOW_WIDTH - MID_LINE_WIDTH) / 2 - DISPLAY_COEFFICENT * (i + 1) * (X_PIXEL + 1),
        DISPLAY_COEFFICENT as int,
        DISPLAY_COEFFICENT * X_PIXEL,
        DISPLAY_COEFFICENT * Y_PIXEL,
    )
}

/// The places of the right team's digits when there are to be `n` of them
/// and `rects` were there before: the first `n` of those, and new places
/// after them where they are too few.
pub open spec fn laid_right(rects: Seq<Rect>, n: nat) -> Seq<Rect> {
    if n <= rects.len() {
        rects.take(n as int)
    } else {
        rects + Seq::new((n - rects.len()) as nat, |k: int| rect_right(rects.len() + k))
    }
}

/// The places of the left team's digits when there are to be `n` of them and
/// `rects` were there before: the first `n` of those, and new places before
/// them where they are too few, the outermost first.
pub open spec fn laid_left(rects: Seq<Rect>, n: nat) -> Seq<Rect> {
    if n <= rects.len() {
        rects.take(n as int)
    } else {
        Seq::new((n - rects.len()) as nat, |k: int| rect_left(n - 1 - k)) + rects
    }
}

/// The most digits that have room to the left of the middle line.
pub const LEFT_PLACES: usize = 4;

/// The most digits that a number of points has.
pub const RIGHT_PLACES: usize = 10;

fn place_right(i: usize) -> (r: Rect)
    requires
        i < RIGHT_PLACES,
    ensures
        r == rect_right(i as int),
        r.wf(),
{
    assert(DISPLAY_COEFFICENT == 22 && WINDOW_WIDTH == 1280 && MID_LINE_WIDTH == 8);
    assert(DISPLAY_COEFFICENT * (1 + i * (1 + X_PIXEL)) == 22 + 132 * i) by (nonlinear_arith)
        requires
            DISPLAY_COEFFICENT == 22,
            X_PIXEL == 5,
    ;
    Rect::new(
        ((WINDOW_WIDTH + MID_LINE_WIDTH) / 2 + DISPLAY_COEFFICENT * (1 + i as u32 * (1 + X_PIXEL)))
            as i32,
        DISPLAY_COEFFICENT as i32,
        DISPLAY_COEFFICENT * X_PIXEL,
        DISPLAY_COEFFICENT * Y_PIXEL,
    )
}

fn place_left(i: usize) -> (r: Rect)
    requires
        i < LEFT_PLACES,
    ensures
        r == rect_left(i as int),
        r.wf(),
{
    assert(DISPLAY_COEFFICENT == 22 && WINDOW_WIDTH == 1280 && MID_LINE_WIDTH == 8);
    assert(DISPLAY_COEFFICENT * (i + 1) == 22 * i + 22 && DISPLAY_COEFFICENT * (i + 1) * (X_PIXEL
        + 1) == 132 * i + 132) by (nonlinear_arith)
        requires
            DISPLAY_COEFFICENT == 22,
            X_PIXEL == 5,
    ;
    Rect::new(
        ((WINDOW_WIDTH - MID_LINE_WIDTH) / 2 - DISPLAY_COEFFICENT * (i + 1) as u32 * (X_PIXEL + 1))
            as i32,
        DISPLAY_COEFFICENT as i32,
        DISPLAY_COEFFICENT * X_PIXEL,
        DISPLAY_COEFFICENT * Y_PIXEL,
    )
}

/// Makes the places of the right team's digits as many as the digits.
pub fn overwrite_rects_right(rects: &mut Vec<Rect>, digits: &Vec<char>)
    requires
        digits.len() <= RIGHT_PLACES,
    ensures
        final(rects)@ == laid_right(old(rects)@, digits.len() as nat),
{
    let len_before: usize = rects.len();
    if digits.len() <= len_before {
        rects.truncate(digits.len());
        assert(rects@ =~= laid_right(old(rects)@, digits.len() as nat));
        return ;
    }
    let mut i: usize = len_before;
    while i < digits.len()
        invariant
            len_before <= i <= digits.len(),
            digits.len() <= RIGHT_PLACES,
            len_before == old(rects)@.len(),
            rects@ == old(rects)@ + Seq::new(
                (i - len_before) as nat,
                |k: int| rect_right(len_before + k),
            ),
        decreases digits.len() - i,
    {
        rects.push(place_right(i));
        assert(rects@ =~= old(rects)@ + Seq::new(
            (i + 1 - len_before) as nat,
            |k: int| rect_right(len_before + k),
        ));
        i += 1;
    }
}

/// Makes the places of the left team's digits as many as the digits.
pub fn overwrite_rects_left(rects: &mut Vec<Rect>, digits: &Vec<char>)
    requires
        digits.len() <= LEFT_PLACES,
    ensures
        final(rects)@ == laid_left(old(rects)@, digits.len() as nat),
{
    let len_before: usize = rects.len();
    if digits.len() <= len_before {
        rects.truncate(digits.len());
        assert(rects@ =~= laid_left(old(rects)@, digits.len() as nat));
        return ;
    }
    let mut i: usize = len_before;
    while i < digits.len()
        invariant
            len_before <= i <= digits.len(),
            digits.len() <= LEFT_PLACES,
            len_before == old(rects)@.len(),
            rects@ == Seq::new((i - len_before) as nat, |k: int| rect_left(i - 1 - k)) + old(
                rects,
            )@,
        decreases digits.len() - i,
    {
        rects.insert(0, place_left(i));
        assert(rects@ =~= Seq::new((i + 1 - len_before) as nat, |k: int| rect_left(i - k)) + old(
            rects,
        )@);
        i += 1;
    }
}

/// What a display of points is: the points of both teams and the places at
/// which their digits are drawn.
pub struct PointDisplayModel {
    pub point_left: nat,
    pub point_right: nat,
    pub rects_left: Seq<Rect>,
    pub rects_right: Seq<Rect>,
}

impl PointDisplayModel {
    /// Each digit has its place, and the left team's digits have room.
    pub open spec fn wf(self) -> bool {
        &&& self.point_left <= u32::MAX
        &&& self.point_right <= u32::MAX
        &&& self.rects_left.len() == digits_of(self.point_left).len()
        &&& self.rects_right.len() == digits_of(self.point_right).len()
        &&& self.rects_left.len() <= LEFT_PLACES
        &&& self.rects_right.len() <= RIGHT_PLACES
    }

    /// The display with no points for either team. The places that are left
    /// are the first that there were.
    pub open spec fn cleared(self) -> PointDisplayModel {
        PointDisplayModel {
            point_left: 0,
            point_right: 0,
            rects_left: laid_left(self.rects_left, 1),
            rects_right: laid_right(self.rects_right, 1),
        }
    }

    /// The display with one point more for `team`.
    pub open spec fn scored(self, team: TeamName) -> PointDisplayModel {
        match team {
            TeamName::Left => PointDisplayModel {
                point_left: self.point_left + 1,
                rects_left: laid_left(
                    self.rects_left,
                    digits_of(self.point_left + 1).len(),
                ),
                ..self
            },
            TeamName::Right => PointDisplayModel {
                point_right: self.point_right + 1,
                rects_right: laid_right(
                    self.rects_right,
                    digits_of(self.point_right + 1).len(),
                ),
                ..self
            },
        }
    }
}

/// The points of both teams and where they are shown.
pub struct PointDisplay {
    point_left: u32,
    point_right: u32,
    rects_left: Vec<Rect>,
    rects_right: Vec<Rect>,
}

impl View for PointDisplay {
    type V = PointDisplayModel;

    closed spec fn view(&self) -> PointDisplayModel {
        PointDisplayModel {
            point_left: self.point_left as nat,
            point_right: self.point_right as nat,
            rects_left: self.rects_left@,
            rects_right: self.rects_right@,
        }
    }
}

impl PointDisplay {
    /// Whether the display is one that `new` makes and the methods keep.
    pub open spec fn wf(&self) -> bool {
        self@.wf()
    }

    /// A display with no points for either team.
    pub fn new() -> (display: Self)
        ensures
            display.wf(),
            display@ == (PointDisplayModel {
                point_left: 0,
                point_right: 0,
                rects_left: seq![rect_left(0)],
                rects_right: seq![rect_right(0)],
            }),
    {
        let mut point_display = Self {
            point_left: 0,
            point_right: 0,
            rects_left: Vec::new(),
            rects_right: Vec::new(),
        };
        let points = digits(0);
        overwrite_rects_left(&mut point_display.rects_left, &points);
        overwrite_rects_right(&mut point_display.rects_right, &points);
        assert(point_display.rects_left@ =~= seq![rect_left(0)]);
        assert(point_display.rects_right@ =~= seq![rect_right(0)]);
        point_display
    }

    /// Takes the points of both teams away.
    pub fn reset(&mut self)
        requires
            old(self).wf(),
        ensures
            final(self).wf(),
            final(self)@ == old(self)@.cleared(),
    {
        let points = digits(0);
        self.point_left = 0;
        overwrite_rects_left(&mut self.rects_left, &points);
        self.point_right = 0;
        overwrite_rects_right(&mut self.rects_right, &points);
    }

    pub fn left(&self) -> (r: u32)
        ensures
            r == self@.point_left,
    {
        self.point_left
    }

    pub fn right(&self) -> (r: u32)
        ensures
            r == self@.point_right,
    {
        self.point_right
    }

    /// Gives `team` one point more.
    pub fn incr_point(&mut self, team: TeamName)
        requires
            old(self).wf(),
            team == TeamName::Left ==> old(self)@.point_left < 9999,
            team == TeamName::Right ==> old(self)@.point_right < u32::MAX,
        ensures
            final(self).wf(),
            final(self)@ == old(self)@.scored(team),
    {
        match team {
            TeamName::Left => {
                self.point_left += 1;
                let digits = digits(self.point_left);
                proof {
                    lemma_digits_count(self.point_left as nat);
                }
                overwrite_rects_left(&mut self.rects_left, &digits);
            },
            TeamName::Right => {
                self.point_right += 1;
                let digits = digits(self.point_right);
                proof {
                    lemma_digits_bound(self.point_right as nat);
                }
                overwrite_rects_right(&mut self.rects_right, &digits);
            },
        }
    }

    /// The digits of a team's points, the highest first.
    pub fn digits(&self, team: TeamName) -> (v: Vec<char>)
        ensures
            v@ == digits_of(
                match team {
                    TeamName::Left => self@.point_left,
                    TeamName::Right => self@.point_right,
                },
            ),
    {
        match team {
            TeamName::Left => digits(self.point_left),
            TeamName::Right => digits(self.point_right),
        }
    }

    /// Where the digits of a team's points are drawn, in the order of the
    /// digits.
    pub fn rects(&self, team: TeamName) -> (v: Vec<Rect>)
        ensures
            v@ == match team {
                TeamName::Left => self@.rects_left,
                TeamName::Right => self@.rects_right,
            },
    {
        let source: &Vec<Rect> = match team {
            TeamName::Left => &self.rects_left,
            TeamName::Right => &self.rects_right,
        };
        let mut v: Vec<Rect> = Vec::new();
        let mut i: usize = 0;
        while i < source.len()
            invariant
                i <= source.len(),
                v@ == source@.take(i as int),
            decreases source.len() - i,
        {
            v.push(source[i]);
            assert(v@ =~= source@.take(i + 1));
            i += 1;
        }
        assert(v@ =~= source@);
        v
    }
}

/// A number of points has ten digits at most.
pub proof fn lemma_digits_bound(n: nat)
    requires
        n <= u32::MAX,
    ensures
        digits_of(n).len() <= RIGHT_PLACES,
{
    reveal_with_fuel(digits_of, 11);
}

} // verus!
