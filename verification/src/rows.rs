//! Rows of values as queries return them.

use vstd::arithmetic::div_mod::lemma_div_denominator;
use vstd::arithmetic::power2::{lemma2_to64, lemma2_to64_rest, lemma_pow2_unfold, pow2};
use vstd::prelude::*;

verus! {

/// A value in a row. A floating-point number is held by its bits.
#[derive(Debug)]
pub enum InspectionValue {
    Null,
    Boolean(bool),
    Integer(i64),
    Float(u64),
    String(String),
    Bytes(Vec<u8>),
    List(Vec<InspectionValue>),
    Other(String),
}

/// The content of an [`InspectionValue`].
pub ghost enum ReadModel {
    Null,
    Boolean(bool),
    Integer(i64),
    Float(u64),
    Text(Seq<char>),
    Bytes(Seq<u8>),
    List(Seq<ReadModel>),
    Other(Seq<char>),
}

/// The content of a value.
pub open spec fn read_model(value: InspectionValue) -> ReadModel
    decreases value,
{
    match value {
        InspectionValue::Null => ReadModel::Null,
        InspectionValue::Boolean(value) => ReadModel::Boolean(value),
        InspectionValue::Integer(value) => ReadModel::Integer(value),
        InspectionValue::Float(bits) => ReadModel::Float(bits),
        InspectionValue::String(text) => ReadModel::Text(text@),
        InspectionValue::Bytes(bytes) => ReadModel::Bytes(bytes@),
        InspectionValue::List(list) => ReadModel::List(
            Seq::new(
                list@.len(),
                |i: int|
                    if 0 <= i < list@.len() {
                        read_model(list@[i])
                    } else {
                        ReadModel::Null
                    },
            ),
        ),
        InspectionValue::Other(text) => ReadModel::Other(text@),
    }
}

impl View for InspectionValue {
    type V = ReadModel;

    open spec fn view(&self) -> ReadModel {
        read_model(*self)
    }
}

/// The text that a value is.
pub open spec fn value_text(value: InspectionValue) -> Option<Seq<char>> {
    match value {
        InspectionValue::String(text) => Some(text@),
        _ => None,
    }
}

impl InspectionValue {
    /// The text that the value is.
    pub fn as_str(&self) -> (r: Option<&str>)
        ensures
            crate::ids::borrowed_text(r) == value_text(*self),
    {
        match self {
            InspectionValue::String(text) => Some(text.as_str()),
            _ => None,
        }
    }

    /// The integer that the value is.
    pub fn as_i64(&self) -> (r: Option<i64>)
        ensures
            r == (match *self {
                InspectionValue::Integer(value) => Some(value),
                _ => None,
            }),
    {
        match self {
            InspectionValue::Integer(value) => Some(*value),
            _ => None,
        }
    }

    /// The same value once more.
    pub fn copy(&self) -> (r: InspectionValue)
        ensures
            r@ == self@,
        decreases self,
    {
        match self {
            InspectionValue::Null => InspectionValue::Null,
            InspectionValue::Boolean(value) => InspectionValue::Boolean(*value),
            InspectionValue::Integer(value) => InspectionValue::Integer(*value),
            InspectionValue::Float(bits) => InspectionValue::Float(*bits),
            InspectionValue::String(text) => InspectionValue::String(text.clone()),
            InspectionValue::Bytes(bytes) => {
                let copied: Vec<u8> = bytes.clone();
                assert(copied@ =~= bytes@);
                InspectionValue::Bytes(copied)
            },
            InspectionValue::List(list) => {
                let mut copied: Vec<InspectionValue> = Vec::new();
                let mut i: usize = 0;
                while i < list.len()
                    invariant
                        *self == InspectionValue::List(*list),
                        i <= list@.len(),
                        copied@.len() == i,
                        forall|k: int| 0 <= k < i ==> (#[trigger] copied@[k])@ == list@[k]@,
                    decreases list@.len() - i,
                {
                    assert(decreases_to!(*self => self->List_0));
                    copied.push(list[i].copy());
                    i = i + 1;
                }
                let value: InspectionValue = InspectionValue::List(copied);
                assert(value@->List_0 =~= self@->List_0);
                value
            },
            InspectionValue::Other(text) => InspectionValue::Other(text.clone()),
        }
    }
}

/// What a query returned: column names and rows, and the results of what followed it.
#[derive(Debug)]
pub struct InspectionResult {
    pub headers: Vec<String>,
    pub rows: Vec<Vec<InspectionValue>>,
    pub next: Option<Box<InspectionResult>>,
}

/// A row of values.
pub type Row = Seq<InspectionValue>;

/// The content of a row.
pub type RowModel = Seq<ReadModel>;

/// The content of rows.
pub open spec fn row_models(rows: Seq<Vec<InspectionValue>>) -> Seq<RowModel> {
    rows.map_values(|row: Vec<InspectionValue>| row@.map_values(|value: InspectionValue| value@))
}

/// Whether all rows have so many columns.
pub open spec fn all_wide(rows: Seq<Vec<InspectionValue>>, columns: int) -> bool {
    forall|i: int| 0 <= i < rows.len() ==> (#[trigger] rows[i])@.len() >= columns
}

/// Tells whether all rows have so many columns.
pub fn are_wide(rows: &Vec<Vec<InspectionValue>>, columns: usize) -> (r: bool)
    ensures
        r == all_wide(rows@, columns as int),
{
    let mut i: usize = 0;
    while i < rows.len()
        invariant
            i <= rows@.len(),
            forall|k: int| 0 <= k < i ==> (#[trigger] rows@[k])@.len() >= columns,
        decreases rows@.len() - i,
    {
        if rows[i].len() < columns {
            return false;
        }
        i = i + 1;
    }
    true
}

/// The text in a column of a row.
pub open spec fn cell_text(row: Row, column: int) -> Option<Seq<char>> {
    if 0 <= column < row.len() {
        value_text(row[column])
    } else {
        None
    }
}

/// The text in a column of a row; an error names what should have been text.
pub fn text<'a>(row: &'a Vec<InspectionValue>, column: usize, name: &str) -> (r: Result<&'a str, String>)
    ensures
        r is Ok <==> cell_text(row@, column as int) is Some,
        r is Ok ==> r->Ok_0@ == cell_text(row@, column as int)->0,
        r is Err ==> r->Err_0@ == name@ + " must be text"@,
{
    if column < row.len() {
        match row[column].as_str() {
            Some(found) => {
                return Ok(found);
            },
            None => {},
        }
    }
    let mut message: String = name.to_owned();
    message.append(" must be text");
    Err(message)
}

/// The significand of a double is at least this, unless the number is very small.
pub const UNIT: u64 = 0x10_0000_0000_0000;

/// The bits of the double whose value is `significand` times two to the power of
/// `exponent - 1075`, the significand doubled until it fills its 53 bits.
pub open spec fn normal_bits(significand: nat, exponent: int) -> int
    decreases 2 * UNIT - significand,
{
    if significand == 0 {
        0
    } else if significand >= UNIT {
        exponent * UNIT + (significand - UNIT)
    } else {
        normal_bits(2 * significand, exponent - 1)
    }
}

/// The smallest power of two from `unit` on that brings the magnitude below 54 bits.
pub open spec fn rounding_unit(magnitude: nat, unit: nat) -> nat
    decreases magnitude / unit,
    when unit > 0
{
    if magnitude / unit < 2 * UNIT {
        unit
    } else {
        proof {
            rounding_unit_progress(magnitude, unit);
        }
        rounding_unit(magnitude, 2 * unit)
    }
}

/// Doubling the unit brings the quotient down.
pub proof fn rounding_unit_progress(magnitude: nat, unit: nat)
    requires
        unit > 0,
        magnitude / unit >= 2 * UNIT,
    ensures
        magnitude / (2 * unit) < magnitude / unit,
{
    assert(magnitude / (2 * unit) <= (magnitude / unit) / 2) by (nonlinear_arith)
        requires
            unit > 0,
    ;
}

/// How often one has been doubled to give the unit.
pub open spec fn doublings(unit: nat) -> nat
    decreases unit,
{
    if unit <= 1 {
        0
    } else {
        1 + doublings(unit / 2)
    }
}

/// The bits of the double nearest to a magnitude; of two equally near, the even one.
pub open spec fn magnitude_bits(magnitude: nat) -> int {
    if magnitude < 2 * UNIT {
        normal_bits(magnitude, 1075)
    } else {
        let unit = rounding_unit(magnitude, 1);
        let quotient = magnitude / unit;
        let rest = magnitude % unit;
        let up = if 2 * rest > unit || (2 * rest == unit && quotient % 2 == 1) {
            1int
        } else {
            0int
        };
        (1075 + doublings(unit)) * UNIT + (quotient + up - UNIT)
    }
}

/// The bits of the double nearest to an integer.
pub open spec fn integer_bits(value: int) -> int {
    if value < 0 {
        0x8000_0000_0000_0000 + magnitude_bits((-value) as nat)
    } else {
        magnitude_bits(value as nat)
    }
}

fn small_magnitude(magnitude: u64) -> (r: u64)
    requires
        magnitude < 2 * UNIT,
    ensures
        r == normal_bits(magnitude as nat, 1075),
        r < 0x8000_0000_0000_0000,
{
    if magnitude == 0 {
        return 0;
    }
    let mut significand: u64 = magnitude;
    let mut exponent: u64 = 1075;
    proof {
        lemma2_to64();
        lemma2_to64_rest();
    }
    while significand < UNIT
        invariant
            1 <= significand < 2 * UNIT,
            1023 <= exponent <= 1075,
            significand >= pow2((1075 - exponent) as nat),
            pow2(52) == UNIT,
            normal_bits(magnitude as nat, 1075) == normal_bits(significand as nat, exponent as int),
        decreases 2 * UNIT - significand,
    {
        proof {
            if exponent == 1023 {
                assert(false);
            }
            lemma_pow2_unfold((1076 - exponent) as nat);
        }
        significand = 2 * significand;
        exponent = exponent - 1;
    }
    exponent * UNIT + (significand - UNIT)
}

fn large_magnitude(magnitude: u64) -> (r: u64)
    requires
        2 * UNIT <= magnitude <= 0x8000_0000_0000_0000,
    ensures
        r == magnitude_bits(magnitude as nat),
        r < 0x8000_0000_0000_0000,
{
    let mut unit: u64 = 1;
    let mut exponent: u64 = 1075;
    proof {
        lemma2_to64();
    }
    while magnitude / unit >= 2 * UNIT
        invariant
            1 <= unit <= 0x800,
            magnitude <= 0x8000_0000_0000_0000,
            2 * UNIT <= magnitude,
            exponent == 1075 + doublings(unit as nat),
            1075 <= exponent <= 1086,
            unit == pow2((exponent - 1075) as nat),
            pow2(11) == 0x800,
            magnitude / unit >= UNIT,
            rounding_unit(magnitude as nat, 1) == rounding_unit(magnitude as nat, unit as nat),
        decreases magnitude / unit,
    {
        proof {
            let m = magnitude as int;
            let u = unit as int;
            rounding_unit_progress(magnitude as nat, unit as nat);
            assert(m >= (m / u) * u) by (nonlinear_arith)
                requires
                    u > 0,
                    m >= 0,
            ;
            assert(m >= 0x20_0000_0000_0000 * u) by (nonlinear_arith)
                requires
                    u > 0,
                    m >= (m / u) * u,
                    m / u >= 0x20_0000_0000_0000,
            ;
            lemma_div_denominator(m, u, 2);
            lemma_pow2_unfold((exponent - 1074) as nat);
            if exponent == 1086 {
                assert(false);
            }
        }
        unit = 2 * unit;
        exponent = exponent + 1;
    }
    let quotient: u64 = magnitude / unit;
    let rest: u64 = magnitude % unit;
    let up: u64 = if 2 * rest > unit || (2 * rest == unit && quotient % 2 == 1) {
        1
    } else {
        0
    };
    exponent * UNIT + (quotient + up - UNIT)
}

/// The bits of the double nearest to an integer.
pub fn whole_bits(value: i64) -> (r: u64)
    ensures
        r == integer_bits(value as int),
{
    let magnitude: u64 = if value >= 0 {
        value as u64
    } else {
        (-(value as i128)) as u64
    };
    let bits: u64 = if magnitude < 2 * UNIT {
        small_magnitude(magnitude)
    } else {
        large_magnitude(magnitude)
    };
    if value < 0 {
        0x8000_0000_0000_0000 + bits
    } else {
        bits
    }
}

/// The bits of the number in a column of a row.
pub open spec fn cell_number(row: Row, column: int) -> Option<int> {
    if 0 <= column < row.len() {
        match row[column] {
            InspectionValue::Float(bits) => Some(bits as int),
            InspectionValue::Integer(value) => Some(integer_bits(value as int)),
            _ => None,
        }
    } else {
        None
    }
}

/// The bits of the number in a column of a row; an error names what should have been a number.
pub fn float(row: &Vec<InspectionValue>, column: usize, name: &str) -> (r: Result<u64, String>)
    ensures
        r is Ok <==> cell_number(row@, column as int) is Some,
        r is Ok ==> r->Ok_0 == cell_number(row@, column as int)->0,
        r is Err ==> r->Err_0@ == name@ + " must be numeric"@,
{
    if column < row.len() {
        match &row[column] {
            InspectionValue::Float(bits) => {
                return Ok(*bits);
            },
            InspectionValue::Integer(value) => {
                return Ok(whole_bits(*value));
            },
            _ => {},
        }
    }
    let mut message: String = name.to_owned();
    message.append(" must be numeric");
    Err(message)
}

/// Whether the bits stand for no number.
pub open spec fn is_nan(bits: int) -> bool {
    bits % 0x8000_0000_0000_0000 > 0x7FF0_0000_0000_0000
}

/// Where a number stands in the order of the numbers.
pub open spec fn number_rank(bits: int) -> int {
    if bits >= 0x8000_0000_0000_0000 {
        -(bits - 0x8000_0000_0000_0000)
    } else {
        bits
    }
}

/// The higher of two numbers; one that is no number gives way.
pub open spec fn higher(a: int, b: int) -> int {
    if is_nan(a) {
        b
    } else if is_nan(b) || number_rank(a) >= number_rank(b) {
        a
    } else {
        b
    }
}

/// The higher of two numbers; one that is no number gives way.
pub fn higher_of(a: u64, b: u64) -> (r: u64)
    ensures
        r == higher(a as int, b as int),
{
    let sign: u64 = 0x8000_0000_0000_0000;
    let top: u64 = 0x7FF0_0000_0000_0000;
    if a % sign > top {
        return b;
    }
    if b % sign > top {
        return a;
    }
    let ahead: bool = if a < sign && b < sign {
        a >= b
    } else if a < sign {
        true
    } else if b < sign {
        a == sign && b == 0
    } else {
        a <= b
    };
    if ahead {
        a
    } else {
        b
    }
}

/// The integer that a double is, if it is whole; one out of range gives the nearest bound.
pub open spec fn whole_value(bits: int) -> Option<int> {
    let negative = bits >= 0x8000_0000_0000_0000;
    let magnitude = if negative {
        bits - 0x8000_0000_0000_0000
    } else {
        bits
    };
    let exponent = magnitude / (UNIT as int);
    let significand = UNIT + magnitude % (UNIT as int);
    if magnitude > 0x7FF0_0000_0000_0000 {
        None
    } else if magnitude == 0 {
        Some(0)
    } else if exponent < 1023 {
        None
    } else if exponent < 1075 {
        let unit = pow2((1075 - exponent) as nat) as int;
        if significand % unit == 0 {
            Some(signed(negative, significand / unit))
        } else {
            None
        }
    } else if exponent < 1086 {
        Some(signed(negative, significand * pow2((exponent - 1075) as nat)))
    } else if negative {
        Some(i64::MIN as int)
    } else {
        Some(i64::MAX as int)
    }
}

/// A magnitude with its sign.
pub open spec fn signed(negative: bool, magnitude: int) -> int {
    if negative {
        -magnitude
    } else {
        magnitude
    }
}

fn two_to(n: u64) -> (r: u64)
    requires
        n <= 52,
    ensures
        r == pow2(n as nat),
        1 <= r <= UNIT,
{
    proof {
        lemma2_to64();
        lemma2_to64_rest();
    }
    let mut power: u64 = 1;
    let mut i: u64 = 0;
    while i < n
        invariant
            i <= n <= 52,
            power == pow2(i as nat),
            pow2(52) == UNIT,
            power >= 1,
        decreases n - i,
    {
        proof {
            lemma_pow2_unfold((i + 1) as nat);
            if i + 1 < 52 {
                vstd::arithmetic::power2::lemma_pow2_strictly_increases((i + 1) as nat, 52);
            }
        }
        power = 2 * power;
        i = i + 1;
    }
    proof {
        if n < 52 {
            vstd::arithmetic::power2::lemma_pow2_strictly_increases(n as nat, 52);
        }
    }
    power
}

/// The integer that a double is, if it is whole; one out of range gives the nearest bound.
pub fn whole_number(bits: u64) -> (r: Option<i64>)
    ensures
        r is Some <==> whole_value(bits as int) is Some,
        r is Some ==> r->0 == whole_value(bits as int)->0,
{
    let sign: u64 = 0x8000_0000_0000_0000;
    let negative: bool = bits >= sign;
    let magnitude: u64 = if negative {
        bits - sign
    } else {
        bits
    };
    let exponent: u64 = magnitude / UNIT;
    let significand: u64 = UNIT + magnitude % UNIT;
    if magnitude > 0x7FF0_0000_0000_0000 {
        return None;
    }
    if magnitude == 0 {
        return Some(0);
    }
    if exponent < 1023 {
        return None;
    }
    if exponent < 1075 {
        let unit: u64 = two_to(1075 - exponent);
        if significand % unit != 0 {
            return None;
        }
        let whole: u64 = significand / unit;
        proof {
            let s = significand as int;
            let u = unit as int;
            assert(s / u <= s) by (nonlinear_arith)
                requires
                    u >= 1,
                    s >= 0,
            ;
        }
        return Some(
            if negative {
                -(whole as i64)
            } else {
                whole as i64
            },
        );
    }
    if exponent < 1086 {
        let unit: u64 = two_to(exponent - 1075);
        proof {
            let s = significand as int;
            let u = unit as int;
            lemma2_to64();
            if exponent - 1075 < 10 {
                vstd::arithmetic::power2::lemma_pow2_strictly_increases((exponent - 1075) as nat, 10);
            }
            assert(s * u < 0x8000_0000_0000_0000) by (nonlinear_arith)
                requires
                    0 <= s < 0x20_0000_0000_0000,
                    1 <= u <= 0x400,
            ;
            assert(0 <= s * u) by (nonlinear_arith)
                requires
                    0 <= s,
                    1 <= u,
            ;
        }
        let whole: u64 = significand * unit;
        return Some(
            if negative {
                -(whole as i64)
            } else {
                whole as i64
            },
        );
    }
    if negative {
        Some(i64::MIN)
    } else {
        Some(i64::MAX)
    }
}

/// The integer in a column of a row.
pub open spec fn cell_integer(row: Row, column: int) -> Option<int> {
    if 0 <= column < row.len() {
        match row[column] {
            InspectionValue::Integer(value) => Some(value as int),
            InspectionValue::Float(bits) => whole_value(bits as int),
            _ => None,
        }
    } else {
        None
    }
}

/// The integer in a column of a row.
pub fn integer(row: &Vec<InspectionValue>, column: usize) -> (r: Option<i64>)
    ensures
        r is Some <==> cell_integer(row@, column as int) is Some,
        r is Some ==> r->0 == cell_integer(row@, column as int)->0,
{
    if column < row.len() {
        match &row[column] {
            InspectionValue::Integer(value) => Some(*value),
            InspectionValue::Float(bits) => whole_number(*bits),
            _ => None,
        }
    } else {
        None
    }
}

/// The text in a column of a row, or nothing where there is none.
pub open spec fn cell_text_or_empty(row: Row, column: int) -> Seq<char> {
    match cell_text(row, column) {
        Some(found) => found,
        None => Seq::empty(),
    }
}

/// The text in a column of a row, or nothing where there is none.
pub fn text_or_empty(row: &Vec<InspectionValue>, column: usize) -> (r: String)
    ensures
        r@ == cell_text_or_empty(row@, column as int),
{
    if column < row.len() {
        match row[column].as_str() {
            Some(found) => {
                return found.to_owned();
            },
            None => {},
        }
    }
    String::new()
}

/// The text in a column of a row, if there is any.
pub fn text_at<'a>(row: &'a Vec<InspectionValue>, column: usize) -> (r: Option<&'a str>)
    ensures
        r is Some <==> cell_text(row@, column as int) is Some,
        r is Some ==> r->0@ == cell_text(row@, column as int)->0,
{
    if column < row.len() {
        row[column].as_str()
    } else {
        None
    }
}

/// The text in a column of a row; an error tells what is not a string, between two given texts.
pub fn string_at<'a>(row: &'a Vec<InspectionValue>, column: usize, what: &str, field: &str) -> (r: Result<&'a str, String>)
    ensures
        r is Ok <==> cell_text(row@, column as int) is Some,
        r is Ok ==> r->Ok_0@ == cell_text(row@, column as int)->0,
        r is Err ==> r->Err_0@ == not_a_string(what@, field@),
{
    match text_at(row, column) {
        Some(found) => Ok(found),
        None => {
            let mut message: String = what.to_owned();
            message.append(field);
            message.append(" is not a string");
            Err(message)
        },
    }
}

/// How a value that should have been a string is reported.
pub open spec fn not_a_string(what: Seq<char>, field: Seq<char>) -> Seq<char> {
    what + field + " is not a string"@
}

} // verus!
