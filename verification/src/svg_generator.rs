//! The ratios of a grid calendar written as one text: four numbers and a border unit,
//! with commas between them, as in `1,1,15,3,pixel`.

pub use crate::calendar_image::grid::{BorderUnit, ParseBorderUnitError, SvgShape};
use crate::calendar_image::grid::border_unit_named;
use crate::text::lowercase_of;
use crate::GridRatios;
use vstd::prelude::*;

verus! {

/// The ratios of a grid calendar.
#[derive(Clone, Copy, Debug, PartialEq, Eq, Structural)]
pub struct DrawingRatios {
    /// How thick should the line around the shape be?
    pub stroke: u32,
    /// How much space should be around each shape?
    pub padding: u32,
    /// How long should the shape be on the inside?
    pub length: u32,
    /// How much space should be around the grid?
    pub border: u32,
    /// Should the border be measured in pixels or the shape?
    pub border_unit: BorderUnit,
}

impl DrawingRatios {
    /// The same ratios, as the grid calendar takes them.
    pub fn to_grid_ratios(&self) -> (r: GridRatios)
        ensures
            r.stroke == self.stroke,
            r.padding == self.padding,
            r.length == self.length,
            r.border == self.border,
            r.border_unit == self.border_unit,
    {
        GridRatios {
            stroke: self.stroke,
            padding: self.padding,
            length: self.length,
            border: self.border,
            border_unit: self.border_unit,
        }
    }
}

/// Why a text gives no ratios.
#[derive(Debug)]
pub struct ParseDrawingRatiosError {
    message: String,
}

impl View for ParseDrawingRatiosError {
    type V = Seq<char>;

    closed spec fn view(&self) -> Seq<char> {
        self.message@
    }
}

impl ParseDrawingRatiosError {
    /// What went wrong, in a few words.
    pub fn message(&self) -> (r: &str)
        ensures
            r@ == self@,
    {
        self.message.as_str()
    }

    /// What went wrong, for a person to read.
    pub fn to_string(&self) -> (r: String)
        ensures
            r@ == "\nCould not parse the ratio string: "@ + self@ + "."@,
    {
        "\nCould not parse the ratio string: ".to_owned().concat(self.message.as_str()).concat(".")
    }

    fn wrong_count() -> (r: Self)
        ensures
            r@ == wrong_count_message(),
    {
        Self { message: "You do not have the correct number of values".to_owned() }
    }

    fn not_a_number() -> (r: Self)
        ensures
            r@ == not_a_number_message(),
    {
        Self { message: "Value must be a number".to_owned() }
    }

    fn bad_border_unit() -> (r: Self)
        ensures
            r@ == bad_border_unit_message(),
    {
        Self { message: "Border unit can only be 'pixel' or 'shape'".to_owned() }
    }
}

/// What is wrong with a text that has not five parts.
pub open spec fn wrong_count_message() -> Seq<char> {
    "You do not have the correct number of values"@
}

/// What is wrong with a text one of whose first four parts is no number.
pub open spec fn not_a_number_message() -> Seq<char> {
    "Value must be a number"@
}

/// What is wrong with a text whose last part names no border unit.
pub open spec fn bad_border_unit_message() -> Seq<char> {
    "Border unit can only be 'pixel' or 'shape'"@
}

/// The parts of a text between its commas. A text without a comma is one part; a comma at
/// either end has an empty part beside it.
pub open spec fn fields(text: Seq<char>) -> Seq<Seq<char>>
    decreases text.len(),
{
    if text.len() == 0 {
        seq![Seq::<char>::empty()]
    } else {
        let before = fields(text.drop_last());
        if text.last() == ',' {
            before.push(Seq::<char>::empty())
        } else {
            before.drop_last().push(before.last().push(text.last()))
        }
    }
}

/// The text consists of decimal digits, at least one.
pub open spec fn is_digits(text: Seq<char>) -> bool {
    text.len() > 0 && forall|i: int| 0 <= i < text.len() ==> '0' <= #[trigger] text[i] <= '9'
}

/// The number that decimal digits write.
pub open spec fn decimal_value(digits: Seq<char>) -> nat
    decreases digits.len(),
{
    if digits.len() == 0 {
        0
    } else {
        (decimal_value(digits.drop_last()) * 10 + (digits.last() as int - '0' as int)) as nat
    }
}

/// The 32-bit number that decimal digits write, if there is at least one digit and the
/// number is no larger than that.
pub open spec fn digits_named(digits: Seq<char>) -> Option<u32> {
    if is_digits(digits) && decimal_value(digits) <= u32::MAX {
        Some(decimal_value(digits) as u32)
    } else {
        None
    }
}

/// The 32-bit number that a text writes, if it writes one: decimal digits, before which a
/// plus sign may stand.
pub open spec fn number_named(text: Seq<char>) -> Option<u32> {
    if text.len() > 0 && text[0] == '+' {
        digits_named(text.subrange(1, text.len() as int))
    } else {
        digits_named(text)
    }
}

/// The ratios that a text gives, or what is wrong with it.
pub open spec fn parsed_ratios(text: Seq<char>) -> Result<DrawingRatios, Seq<char>> {
    let parts = fields(text);
    if parts.len() != 5 {
        Err(wrong_count_message())
    } else if number_named(parts[0]) is None || number_named(parts[1]) is None || number_named(
        parts[2],
    ) is None || number_named(parts[3]) is None {
        Err(not_a_number_message())
    } else {
        match border_unit_named(lowercase_of(parts[4])) {
            None => Err(bad_border_unit_message()),
            Some(border_unit) => Ok(
                DrawingRatios {
                    stroke: number_named(parts[0])->Some_0,
                    padding: number_named(parts[1])->Some_0,
                    length: number_named(parts[2])->Some_0,
                    border: number_named(parts[3])->Some_0,
                    border_unit,
                },
            ),
        }
    }
}

/// Where the part with the given index begins, for commas at the places `cuts`.
pub open spec fn part_start(cuts: Seq<usize>, index: int) -> int {
    if index == 0 {
        0
    } else {
        cuts[index - 1] + 1
    }
}

/// Where the part with the given index ends, for commas at the places `cuts` in a text
/// of `len` characters.
pub open spec fn part_end(cuts: Seq<usize>, index: int, len: int) -> int {
    if index < cuts.len() {
        cuts[index] as int
    } else {
        len
    }
}

/// The commas at the places `cuts` part the first `upto` characters of `text` into its
/// fields.
pub open spec fn cuts_part(text: Seq<char>, upto: int, cuts: Seq<usize>) -> bool {
    let parts = fields(text.subrange(0, upto));
    &&& parts.len() == cuts.len() + 1
    &&& forall|k: int|
        0 <= k < parts.len() ==> 0 <= #[trigger] part_start(cuts, k) <= part_end(cuts, k, upto)
            <= upto
    &&& forall|k: int|
        0 <= k < parts.len() ==> #[trigger] parts[k] == text.subrange(
            part_start(cuts, k),
            part_end(cuts, k, upto),
        )
}

/// The places of the commas of a text.
fn find_cuts(s: &str) -> (cuts: Vec<usize>)
    ensures
        cuts_part(s@, s@.len() as int, cuts@),
{
    let n = s.unicode_len();
    let mut cuts: Vec<usize> = Vec::new();
    let mut i: usize = 0;
    proof {
        assert(s@.subrange(0, 0) =~= Seq::<char>::empty());
        assert(fields(s@.subrange(0, 0))[0] =~= s@.subrange(0, 0));
    }
    while i < n
        invariant
            n == s@.len(),
            i <= n,
            cuts_part(s@, i as int, cuts@),
        decreases n - i,
    {
        let c = s.get_char(i);
        let ghost prefix = s@.subrange(0, i as int);
        let ghost longer = s@.subrange(0, i + 1);
        let ghost parts = fields(prefix);
        let ghost old_cuts = cuts@;
        proof {
            assert(longer.drop_last() =~= prefix);
            assert(longer.last() == c);
        }
        if c == ',' {
            cuts.push(i);
            proof {
                let longer_parts = fields(longer);
                assert(longer_parts == parts.push(Seq::<char>::empty()));
                assert forall|k: int| 0 <= k < longer_parts.len() implies 0
                    <= #[trigger] part_start(cuts@, k) <= part_end(cuts@, k, i + 1) <= i + 1 by {
                    if k < parts.len() {
                        assert(0 <= part_start(old_cuts, k) <= part_end(old_cuts, k, i as int));
                        assert(part_start(cuts@, k) == part_start(old_cuts, k));
                        assert(part_end(cuts@, k, i + 1) == part_end(old_cuts, k, i as int));
                    }
                }
                assert forall|k: int| 0 <= k < longer_parts.len() implies #[trigger] longer_parts[k]
                    == s@.subrange(part_start(cuts@, k), part_end(cuts@, k, i + 1)) by {
                    if k < parts.len() {
                        assert(parts[k] == s@.subrange(
                            part_start(old_cuts, k),
                            part_end(old_cuts, k, i as int),
                        ));
                        assert(part_start(cuts@, k) == part_start(old_cuts, k));
                        assert(part_end(cuts@, k, i + 1) == part_end(old_cuts, k, i as int));
                    } else {
                        assert(longer_parts[k] =~= s@.subrange(i + 1, i + 1));
                    }
                }
            }
        } else {
            proof {
                let longer_parts = fields(longer);
                assert(longer_parts == parts.drop_last().push(parts.last().push(c)));
                assert forall|k: int| 0 <= k < longer_parts.len() implies 0
                    <= #[trigger] part_start(cuts@, k) <= part_end(cuts@, k, i + 1) <= i + 1 by {
                    assert(0 <= part_start(old_cuts, k) <= part_end(old_cuts, k, i as int));
                }
                assert forall|k: int| 0 <= k < longer_parts.len() implies #[trigger] longer_parts[k]
                    == s@.subrange(part_start(cuts@, k), part_end(cuts@, k, i + 1)) by {
                    assert(parts[k] == s@.subrange(
                        part_start(old_cuts, k),
                        part_end(old_cuts, k, i as int),
                    ));
                    assert(0 <= part_start(old_cuts, k) <= part_end(old_cuts, k, i as int));
                    if k == parts.len() - 1 {
                        assert(parts[k].push(c) =~= s@.subrange(part_start(cuts@, k), i + 1));
                    }
                }
            }
        }
        i = i + 1;
    }
    proof {
        assert(s@.subrange(0, n as int) =~= s@);
    }
    cuts
}

/// The 32-bit number that the characters from `from` up to `to` write, if they write
/// one.
fn parse_number(s: &str, from: usize, to: usize) -> (r: Option<u32>)
    requires
        from <= to <= s@.len(),
    ensures
        r == number_named(s@.subrange(from as int, to as int)),
{
    let ghost text = s@.subrange(from as int, to as int);
    let mut i = from;
    if i < to && s.get_char(i) == '+' {
        i = i + 1;
    }
    let ghost digits = s@.subrange(i as int, to as int);
    proof {
        if i > from {
            assert(text[0] == '+');
            assert(digits =~= text.subrange(1, text.len() as int));
        } else {
            assert(digits =~= text);
            if text.len() > 0 {
                assert(text[0] == s@[from as int]);
            }
        }
    }
    if i == to {
        return None;
    }
    let first = i;
    let mut value: u64 = 0;
    let mut too_large = false;
    while i < to
        invariant
            first <= i <= to <= s@.len(),
            first < to,
            digits == s@.subrange(first as int, to as int),
            number_named(s@.subrange(from as int, to as int)) == digits_named(digits),
            forall|k: int| 0 <= k < i - first ==> '0' <= #[trigger] digits[k] <= '9',
            !too_large ==> value == decimal_value(digits.subrange(0, i - first)) && value
                <= u32::MAX,
            too_large ==> decimal_value(digits.subrange(0, i - first)) > u32::MAX,
        decreases to - i,
    {
        let c = s.get_char(i);
        proof {
            assert(digits[i - first] == c);
            assert(digits.subrange(0, i - first + 1).drop_last() =~= digits.subrange(
                0,
                i - first,
            ));
            assert(digits.subrange(0, i - first + 1).last() == c);
        }
        if c < '0' || c > '9' {
            return None;
        }
        if !too_large {
            value = value * 10 + (c as u64 - '0' as u64);
            if value > u32::MAX as u64 {
                too_large = true;
            }
        }
        i = i + 1;
    }
    proof {
        assert(digits.subrange(0, to - first) =~= digits);
    }
    if too_large {
        None
    } else {
        Some(value as u32)
    }
}

impl DrawingRatios {
    /// The ratios that a text gives: stroke, padding, length, border and border unit,
    /// with commas between them.
    pub fn from_str(s: &str) -> (r: Result<DrawingRatios, ParseDrawingRatiosError>)
        ensures
            match r {
                Ok(ratios) => parsed_ratios(s@) == Ok::<DrawingRatios, Seq<char>>(ratios),
                Err(e) => parsed_ratios(s@) == Err::<DrawingRatios, Seq<char>>(e@),
            },
    {
        let n = s.unicode_len();
        let cuts = find_cuts(s);
        assert(s@.subrange(0, s@.len() as int) =~= s@);
        if cuts.len() != 4 {
            return Err(ParseDrawingRatiosError::wrong_count());
        }
        let ghost parts = fields(s@);
        proof {
            assert(parts[0] == s@.subrange(part_start(cuts@, 0), part_end(cuts@, 0, n as int)));
            assert(parts[1] == s@.subrange(part_start(cuts@, 1), part_end(cuts@, 1, n as int)));
            assert(parts[2] == s@.subrange(part_start(cuts@, 2), part_end(cuts@, 2, n as int)));
            assert(parts[3] == s@.subrange(part_start(cuts@, 3), part_end(cuts@, 3, n as int)));
            assert(parts[4] == s@.subrange(part_start(cuts@, 4), part_end(cuts@, 4, n as int)));
        }
        let stroke = match parse_number(s, 0, cuts[0]) {
            Some(v) => v,
            None => { return Err(ParseDrawingRatiosError::not_a_number()); },
        };
        let padding = match parse_number(s, cuts[0] + 1, cuts[1]) {
            Some(v) => v,
            None => { return Err(ParseDrawingRatiosError::not_a_number()); },
        };
        let length = match parse_number(s, cuts[1] + 1, cuts[2]) {
            Some(v) => v,
            None => { return Err(ParseDrawingRatiosError::not_a_number()); },
        };
        let border = match parse_number(s, cuts[2] + 1, cuts[3]) {
            Some(v) => v,
            None => { return Err(ParseDrawingRatiosError::not_a_number()); },
        };
        let border_unit = match BorderUnit::from_str(s.substring_char(cuts[3] + 1, n)) {
            Ok(unit) => unit,
            Err(_) => { return Err(ParseDrawingRatiosError::bad_border_unit()); },
        };
        Ok(DrawingRatios { stroke, padding, length, border, border_unit })
    }
}

} // verus!
