//! Integers: displayed with their digits grouped, and kept at the node so
//! that a later delta can be applied to them.

use vstd::prelude::*;
use vstd::string::StringExecFns;
use num_format::{Locale, ToFormattedString};
use crate::digits::{decimal, digit_char};
use crate::elements::text::{replace_content, with_content};
use crate::elements::Element;
use crate::slot::{ElementError, NumericValue, Slot, SlotView};
use crate::style::{resolve_style, resolved_style, Styles};

verus! {

/// A number below a thousand with three digits, zeros before it where it
/// has fewer.
pub open spec fn three_digits(n: nat) -> Seq<char> {
    seq![digit_char(n / 100), digit_char((n / 10) % 10), digit_char(n % 10)]
}

/// A natural number in decimal notation, its digits in groups of three,
/// counted from the right, with a comma between the groups.
pub open spec fn grouped_natural(n: nat) -> Seq<char>
    decreases n,
{
    if n < 1000 {
        decimal(n)
    } else {
        grouped_natural(n / 1000) + seq![','] + three_digits(n % 1000)
    }
}

/// An integer with its digits grouped, as the English locale writes it: a
/// minus sign before a negative number, then the digits in groups of three
/// with commas between them.
pub open spec fn grouped(n: int) -> Seq<char> {
    if n < 0 {
        seq!['-'] + grouped_natural((-n) as nat)
    } else {
        grouped_natural(n as nat)
    }
}

/// Calls `ToFormattedString::to_formatted_string` on a signed integer, with
/// `Locale::en`, which writes a minus sign before a negative number and
/// the digits in groups of three with commas between them.
#[verifier::external_body]
fn format_signed(n: i128) -> (text: String)
    ensures
        text@ == grouped(n as int),
{
    n.to_formatted_string(&Locale::en)
}

/// Calls `ToFormattedString::to_formatted_string` on an unsigned integer,
/// with `Locale::en`, which writes the digits in groups of three with
/// commas between them.
#[verifier::external_body]
fn format_unsigned(n: u128) -> (text: String)
    ensures
        text@ == grouped(n as int),
{
    n.to_formatted_string(&Locale::en)
}

/// The quotient of two integers, rounded toward zero.
pub open spec fn truncated_quotient(x: int, d: int) -> int {
    if x == 0 {
        0
    } else if x > 0 && d > 0 {
        x / d
    } else if x < 0 && d < 0 {
        ((x * -1) / (d * -1))
    } else if x < 0 {
        ((x * -1) / d) * -1
    } else {
        (x / (d * -1)) * -1
    }
}

/// A number below a thousand is written without comma.
pub proof fn lemma_grouped_small(n: int)
    requires
        0 <= n < 1000,
    ensures
        grouped(n) == decimal(n as nat),
{
}

/// An integer of one of the machine's widths.
pub trait IntegerLike: Copy + Sized {
    /// The integer as a mathematical value.
    spec fn number(self) -> int;

    /// The integer of this width with the given value.
    spec fn from_number(n: int) -> Self;

    /// The least value of this width.
    spec fn least() -> int;

    /// The greatest value of this width.
    spec fn greatest() -> int;

    /// The integer, tagged with its width and signedness.
    spec fn numeric(self) -> NumericValue;

    /// The integer in a tagged value, where the tag is this width's.
    spec fn recovered(value: NumericValue) -> Option<Self>;

    fn from_numeric_value(value: &NumericValue) -> (r: Option<Self>)
        ensures
            r == Self::recovered(*value),
    ;

    fn to_numeric_value(self) -> (r: NumericValue)
        ensures
            r == self.numeric(),
    ;

    /// The integer with its digits grouped.
    fn formatted(self) -> (text: String)
        ensures
            text@ == grouped(self.number()),
    ;

    fn add(self, other: Self) -> (r: Result<Self, ElementError>)
        ensures
            r == (if Self::least() <= self.number() + other.number() <= Self::greatest() {
                Ok(Self::from_number(self.number() + other.number()))
            } else {
                Err(ElementError::Overflow)
            }),
    ;

    fn sub(self, other: Self) -> (r: Result<Self, ElementError>)
        ensures
            r == (if Self::least() <= self.number() - other.number() <= Self::greatest() {
                Ok(Self::from_number(self.number() - other.number()))
            } else {
                Err(ElementError::Overflow)
            }),
    ;

    fn mul(self, other: Self) -> (r: Result<Self, ElementError>)
        ensures
            r == (if Self::least() <= self.number() * other.number() <= Self::greatest() {
                Ok(Self::from_number(self.number() * other.number()))
            } else {
                Err(ElementError::Overflow)
            }),
    ;

    fn div(self, other: Self) -> (r: Result<Self, ElementError>)
        ensures
            r == (if other.number() == 0 {
                Err(ElementError::DivisionByZero)
            } else if Self::least() <= truncated_quotient(self.number(), other.number())
                <= Self::greatest() {
                Ok(Self::from_number(truncated_quotient(self.number(), other.number())))
            } else {
                Err(ElementError::Overflow)
            }),
    ;
}

/// The integer of width `T` with value `n`; an overflow where the width
/// cannot hold it.
pub open spec fn fitted<T: IntegerLike>(n: int) -> Result<T, ElementError> {
    if T::least() <= n <= T::greatest() {
        Ok(T::from_number(n))
    } else {
        Err(ElementError::Overflow)
    }
}

/// The quotient of `x` by `d`, rounded toward zero, in width `T`.
pub open spec fn divided<T: IntegerLike>(x: int, d: int) -> Result<T, ElementError> {
    if d == 0 {
        Err(ElementError::DivisionByZero)
    } else {
        fitted::<T>(truncated_quotient(x, d))
    }
}

/// Between natural numbers, rounding toward zero is rounding down.
pub proof fn lemma_quotient_of_naturals(x: int, d: int)
    requires
        0 <= x,
        0 < d,
    ensures
        truncated_quotient(x, d) == x / d,
        0 <= x / d <= x,
{
    assert(0 <= x / d <= x) by (nonlinear_arith)
        requires
            0 <= x,
            0 < d,
    ;
    if x == 0 {
        assert(0int / d == 0) by (nonlinear_arith)
            requires
                0 < d,
        ;
    }
}

impl IntegerLike for i8 {
    open spec fn number(self) -> int {
        self as int
    }

    open spec fn from_number(n: int) -> i8 {
        n as i8
    }

    open spec fn least() -> int {
        i8::MIN as int
    }

    open spec fn greatest() -> int {
        i8::MAX as int
    }

    open spec fn numeric(self) -> NumericValue {
        NumericValue::I8(self)
    }

    open spec fn recovered(value: NumericValue) -> Option<i8> {
        match value {
            NumericValue::I8(v) => Some(v),
            _ => None,
        }
    }

    fn from_numeric_value(value: &NumericValue) -> (r: Option<i8>) {
        match value {
            NumericValue::I8(v) => Some(*v),
            _ => None,
        }
    }

    fn to_numeric_value(self) -> (r: NumericValue) {
        NumericValue::I8(self)
    }

    fn formatted(self) -> (text: String) {
        let wide = self as i128;
        assert(wide as int == self.number());
        format_signed(wide)
    }

    fn add(self, other: i8) -> (r: Result<i8, ElementError>) {
        match self.checked_add(other) {
            Some(v) => Ok(v),
            None => Err(ElementError::Overflow),
        }
    }

    fn sub(self, other: i8) -> (r: Result<i8, ElementError>) {
        match self.checked_sub(other) {
            Some(v) => Ok(v),
            None => Err(ElementError::Overflow),
        }
    }

    fn mul(self, other: i8) -> (r: Result<i8, ElementError>) {
        match self.checked_mul(other) {
            Some(v) => Ok(v),
            None => Err(ElementError::Overflow),
        }
    }

    fn div(self, other: i8) -> (r: Result<i8, ElementError>) {
        if other == 0 {
            Err(ElementError::DivisionByZero)
        } else {
            match self.checked_div(other) {
                Some(v) => Ok(v),
                None => Err(ElementError::Overflow),
            }
        }
    }
}

impl IntegerLike for i16 {
    open spec fn number(self) -> int {
        self as int
    }

    open spec fn from_number(n: int) -> i16 {
        n as i16
    }

    open spec fn least() -> int {
        i16::MIN as int
    }

    open spec fn greatest() -> int {
        i16::MAX as int
    }

    open spec fn numeric(self) -> NumericValue {
        NumericValue::I16(self)
    }

    open spec fn recovered(value: NumericValue) -> Option<i16> {
        match value {
            NumericValue::I16(v) => Some(v),
            _ => None,
        }
    }

    fn from_numeric_value(value: &NumericValue) -> (r: Option<i16>) {
        match value {
            NumericValue::I16(v) => Some(*v),
            _ => None,
        }
    }

    fn to_numeric_value(self) -> (r: NumericValue) {
        NumericValue::I16(self)
    }

    fn formatted(self) -> (text: String) {
        let wide = self as i128;
        assert(wide as int == self.number());
        format_signed(wide)
    }

    fn add(self, other: i16) -> (r: Result<i16, ElementError>) {
        match self.checked_add(other) {
            Some(v) => Ok(v),
            None => Err(ElementError::Overflow),
        }
    }

    fn sub(self, other: i16) -> (r: Result<i16, ElementError>) {
        match self.checked_sub(other) {
            Some(v) => Ok(v),
            None => Err(ElementError::Overflow),
        }
    }

    fn mul(self, other: i16) -> (r: Result<i16, ElementError>) {
        match self.checked_mul(other) {
            Some(v) => Ok(v),
            None => Err(ElementError::Overflow),
        }
    }

    fn div(self, other: i16) -> (r: Result<i16, ElementError>) {
        if other == 0 {
            Err(ElementError::DivisionByZero)
        } else {
            match self.checked_div(other) {
                Some(v) => Ok(v),
                None => Err(ElementError::Overflow),
            }
        }
    }
}

impl IntegerLike for i32 {
    open spec fn number(self) -> int {
        self as int
    }

    open spec fn from_number(n: int) -> i32 {
        n as i32
    }

    open spec fn least() -> int {
        i32::MIN as int
    }

    open spec fn greatest() -> int {
        i32::MAX as int
    }

    open spec fn numeric(self) -> NumericValue {
        NumericValue::I32(self)
    }

    open spec fn recovered(value: NumericValue) -> Option<i32> {
        match value {
            NumericValue::I32(v) => Some(v),
            _ => None,
        }
    }

    fn from_numeric_value(value: &NumericValue) -> (r: Option<i32>) {
        match value {
            NumericValue::I32(v) => Some(*v),
            _ => None,
        }
    }

    fn to_numeric_value(self) -> (r: NumericValue) {
        NumericValue::I32(self)
    }

    fn formatted(self) -> (text: String) {
        let wide = self as i128;
        assert(wide as int == self.number());
        format_signed(wide)
    }

    fn add(self, other: i32) -> (r: Result<i32, ElementError>) {
        match self.checked_add(other) {
            Some(v) => Ok(v),
            None => Err(ElementError::Overflow),
        }
    }

    fn sub(self, other: i32) -> (r: Result<i32, ElementError>) {
        match self.checked_sub(other) {
            Some(v) => Ok(v),
            None => Err(ElementError::Overflow),
        }
    }

    fn mul(self, other: i32) -> (r: Result<i32, ElementError>) {
        match self.checked_mul(other) {
            Some(v) => Ok(v),
            None => Err(ElementError::Overflow),
        }
    }

    fn div(self, other: i32) -> (r: Result<i32, ElementError>) {
        if other == 0 {
            Err(ElementError::DivisionByZero)
        } else {
            match self.checked_div(other) {
                Some(v) => Ok(v),
                None => Err(ElementError::Overflow),
            }
        }
    }
}

impl IntegerLike for i64 {
    open spec fn number(self) -> int {
        self as int
    }

    open spec fn from_number(n: int) -> i64 {
        n as i64
    }

    open spec fn least() -> int {
        i64::MIN as int
    }

    open spec fn greatest() -> int {
        i64::MAX as int
    }

    open spec fn numeric(self) -> NumericValue {
        NumericValue::I64(self)
    }

    open spec fn recovered(value: NumericValue) -> Option<i64> {
        match value {
            NumericValue::I64(v) => Some(v),
            _ => None,
        }
    }

    fn from_numeric_value(value: &NumericValue) -> (r: Option<i64>) {
        match value {
            NumericValue::I64(v) => Some(*v),
            _ => None,
        }
    }

    fn to_numeric_value(self) -> (r: NumericValue) {
        NumericValue::I64(self)
    }

    fn formatted(self) -> (text: String) {
        let wide = self as i128;
        assert(wide as int == self.number());
        format_signed(wide)
    }

    fn add(self, other: i64) -> (r: Result<i64, ElementError>) {
        match self.checked_add(other) {
            Some(v) => Ok(v),
            None => Err(ElementError::Overflow),
        }
    }

    fn sub(self, other: i64) -> (r: Result<i64, ElementError>) {
        match self.checked_sub(other) {
            Some(v) => Ok(v),
            None => Err(ElementError::Overflow),
        }
    }

    fn mul(self, other: i64) -> (r: Result<i64, ElementError>) {
        match self.checked_mul(other) {
            Some(v) => Ok(v),
            None => Err(ElementError::Overflow),
        }
    }

    fn div(self, other: i64) -> (r: Result<i64, ElementError>) {
        if other == 0 {
            Err(ElementError::DivisionByZero)
        } else {
            match self.checked_div(other) {
                Some(v) => Ok(v),
                None => Err(ElementError::Overflow),
            }
        }
    }
}

impl IntegerLike for i128 {
    open spec fn number(self) -> int {
        self as int
    }

    open spec fn from_number(n: int) -> i128 {
        n as i128
    }

    open spec fn least() -> int {
        i128::MIN as int
    }

    open spec fn greatest() -> int {
        i128::MAX as int
    }

    open spec fn numeric(self) -> NumericValue {
        NumericValue::I128(self)
    }

    open spec fn recovered(value: NumericValue) -> Option<i128> {
        match value {
            NumericValue::I128(v) => Some(v),
            _ => None,
        }
    }

    fn from_numeric_value(value: &NumericValue) -> (r: Option<i128>) {
        match value {
            NumericValue::I128(v) => Some(*v),
            _ => None,
        }
    }

    fn to_numeric_value(self) -> (r: NumericValue) {
        NumericValue::I128(self)
    }

    fn formatted(self) -> (text: String) {
        let wide = self as i128;
        assert(wide as int == self.number());
        format_signed(wide)
    }

    fn add(self, other: i128) -> (r: Result<i128, ElementError>) {
        match self.checked_add(other) {
            Some(v) => Ok(v),
            None => Err(ElementError::Overflow),
        }
    }

    fn sub(self, other: i128) -> (r: Result<i128, ElementError>) {
        match self.checked_sub(other) {
            Some(v) => Ok(v),
            None => Err(ElementError::Overflow),
        }
    }

    fn mul(self, other: i128) -> (r: Result<i128, ElementError>) {
        match self.checked_mul(other) {
            Some(v) => Ok(v),
            None => Err(ElementError::Overflow),
        }
    }

    fn div(self, other: i128) -> (r: Result<i128, ElementError>) {
        if other == 0 {
            Err(ElementError::DivisionByZero)
        } else {
            match self.checked_div(other) {
                Some(v) => Ok(v),
                None => Err(ElementError::Overflow),
            }
        }
    }
}

impl IntegerLike for isize {
    open spec fn number(self) -> int {
        self as int
    }

    open spec fn from_number(n: int) -> isize {
        n as isize
    }

    open spec fn least() -> int {
        isize::MIN as int
    }

    open spec fn greatest() -> int {
        isize::MAX as int
    }

    open spec fn numeric(self) -> NumericValue {
        NumericValue::Isize(self)
    }

    open spec fn recovered(value: NumericValue) -> Option<isize> {
        match value {
            NumericValue::Isize(v) => Some(v),
            _ => None,
        }
    }

    fn from_numeric_value(value: &NumericValue) -> (r: Option<isize>) {
        match value {
            NumericValue::Isize(v) => Some(*v),
            _ => None,
        }
    }

    fn to_numeric_value(self) -> (r: NumericValue) {
        NumericValue::Isize(self)
    }

    fn formatted(self) -> (text: String) {
        let wide = self as i128;
        assert(wide as int == self.number());
        format_signed(wide)
    }

    fn add(self, other: isize) -> (r: Result<isize, ElementError>) {
        match self.checked_add(other) {
            Some(v) => Ok(v),
            None => Err(ElementError::Overflow),
        }
    }

    fn sub(self, other: isize) -> (r: Result<isize, ElementError>) {
        match self.checked_sub(other) {
            Some(v) => Ok(v),
            None => Err(ElementError::Overflow),
        }
    }

    fn mul(self, other: isize) -> (r: Result<isize, ElementError>) {
        match self.checked_mul(other) {
            Some(v) => Ok(v),
            None => Err(ElementError::Overflow),
        }
    }

    fn div(self, other: isize) -> (r: Result<isize, ElementError>) {
        if other == 0 {
            Err(ElementError::DivisionByZero)
        } else {
            match self.checked_div(other) {
                Some(v) => Ok(v),
                None => Err(ElementError::Overflow),
            }
        }
    }
}

impl IntegerLike for u8 {
    open spec fn number(self) -> int {
        self as int
    }

    open spec fn from_number(n: int) -> u8 {
        n as u8
    }

    open spec fn least() -> int {
        u8::MIN as int
    }

    open spec fn greatest() -> int {
        u8::MAX as int
    }

    open spec fn numeric(self) -> NumericValue {
        NumericValue::U8(self)
    }

    open spec fn recovered(value: NumericValue) -> Option<u8> {
        match value {
            NumericValue::U8(v) => Some(v),
            _ => None,
        }
    }

    fn from_numeric_value(value: &NumericValue) -> (r: Option<u8>) {
        match value {
            NumericValue::U8(v) => Some(*v),
            _ => None,
        }
    }

    fn to_numeric_value(self) -> (r: NumericValue) {
        NumericValue::U8(self)
    }

    fn formatted(self) -> (text: String) {
        let wide = self as u128;
        assert(wide as int == self.number());
        format_unsigned(wide)
    }

    fn add(self, other: u8) -> (r: Result<u8, ElementError>) {
        match self.checked_add(other) {
            Some(v) => Ok(v),
            None => Err(ElementError::Overflow),
        }
    }

    fn sub(self, other: u8) -> (r: Result<u8, ElementError>) {
        match self.checked_sub(other) {
            Some(v) => Ok(v),
            None => Err(ElementError::Overflow),
        }
    }

    fn mul(self, other: u8) -> (r: Result<u8, ElementError>) {
        match self.checked_mul(other) {
            Some(v) => Ok(v),
            None => Err(ElementError::Overflow),
        }
    }

    fn div(self, other: u8) -> (r: Result<u8, ElementError>) {
        if other == 0 {
            Err(ElementError::DivisionByZero)
        } else {
            proof {
                lemma_quotient_of_naturals(self as int, other as int);
            }
            Ok(self / other)
        }
    }
}

impl IntegerLike for u16 {
    open spec fn number(self) -> int {
        self as int
    }

    open spec fn from_number(n: int) -> u16 {
        n as u16
    }

    open spec fn least() -> int {
        u16::MIN as int
    }

    open spec fn greatest() -> int {
        u16::MAX as int
    }

    open spec fn numeric(self) -> NumericValue {
        NumericValue::U16(self)
    }

    open spec fn recovered(value: NumericValue) -> Option<u16> {
        match value {
            NumericValue::U16(v) => Some(v),
            _ => None,
        }
    }

    fn from_numeric_value(value: &NumericValue) -> (r: Option<u16>) {
        match value {
            NumericValue::U16(v) => Some(*v),
            _ => None,
        }
    }

    fn to_numeric_value(self) -> (r: NumericValue) {
        NumericValue::U16(self)
    }

    fn formatted(self) -> (text: String) {
        let wide = self as u128;
        assert(wide as int == self.number());
        format_unsigned(wide)
    }

    fn add(self, other: u16) -> (r: Result<u16, ElementError>) {
        match self.checked_add(other) {
            Some(v) => Ok(v),
            None => Err(ElementError::Overflow),
        }
    }

    fn sub(self, other: u16) -> (r: Result<u16, ElementError>) {
        match self.checked_sub(other) {
            Some(v) => Ok(v),
            None => Err(ElementError::Overflow),
        }
    }

    fn mul(self, other: u16) -> (r: Result<u16, ElementError>) {
        match self.checked_mul(other) {
            Some(v) => Ok(v),
            None => Err(ElementError::Overflow),
        }
    }

    fn div(self, other: u16) -> (r: Result<u16, ElementError>) {
        if other == 0 {
            Err(ElementError::DivisionByZero)
        } else {
            proof {
                lemma_quotient_of_naturals(self as int, other as int);
            }
            Ok(self / other)
        }
    }
}

impl IntegerLike for u32 {
    open spec fn number(self) -> int {
        self as int
    }

    open spec fn from_number(n: int) -> u32 {
        n as u32
    }

    open spec fn least() -> int {
        u32::MIN as int
    }

    open spec fn greatest() -> int {
        u32::MAX as int
    }

    open spec fn numeric(self) -> NumericValue {
        NumericValue::U32(self)
    }

    open spec fn recovered(value: NumericValue) -> Option<u32> {
        match value {
            NumericValue::U32(v) => Some(v),
            _ => None,
        }
    }

    fn from_numeric_value(value: &NumericValue) -> (r: Option<u32>) {
        match value {
            NumericValue::U32(v) => Some(*v),
            _ => None,
        }
    }

    fn to_numeric_value(self) -> (r: NumericValue) {
        NumericValue::U32(self)
    }

    fn formatted(self) -> (text: String) {
        let wide = self as u128;
        assert(wide as int == self.number());
        format_unsigned(wide)
    }

    fn add(self, other: u32) -> (r: Result<u32, ElementError>) {
        match self.checked_add(other) {
            Some(v) => Ok(v),
            None => Err(ElementError::Overflow),
        }
    }

    fn sub(self, other: u32) -> (r: Result<u32, ElementError>) {
        match self.checked_sub(other) {
            Some(v) => Ok(v),
            None => Err(ElementError::Overflow),
        }
    }

    fn mul(self, other: u32) -> (r: Result<u32, ElementError>) {
        match self.checked_mul(other) {
            Some(v) => Ok(v),
            None => Err(ElementError::Overflow),
        }
    }

    fn div(self, other: u32) -> (r: Result<u32, ElementError>) {
        if other == 0 {
            Err(ElementError::DivisionByZero)
        } else {
            proof {
                lemma_quotient_of_naturals(self as int, other as int);
            }
            Ok(self / other)
        }
    }
}

impl IntegerLike for u64 {
    open spec fn number(self) -> int {
        self as int
    }

    open spec fn from_number(n: int) -> u64 {
        n as u64
    }

    open spec fn least() -> int {
        u64::MIN as int
    }

    open spec fn greatest() -> int {
        u64::MAX as int
    }

    open spec fn numeric(self) -> NumericValue {
        NumericValue::U64(self)
    }

    open spec fn recovered(value: NumericValue) -> Option<u64> {
        match value {
            NumericValue::U64(v) => Some(v),
            _ => None,
        }
    }

    fn from_numeric_value(value: &NumericValue) -> (r: Option<u64>) {
        match value {
            NumericValue::U64(v) => Some(*v),
            _ => None,
        }
    }

    fn to_numeric_value(self) -> (r: NumericValue) {
        NumericValue::U64(self)
    }

    fn formatted(self) -> (text: String) {
        let wide = self as u128;
        assert(wide as int == self.number());
        format_unsigned(wide)
    }

    fn add(self, other: u64) -> (r: Result<u64, ElementError>) {
        match self.checked_add(other) {
            Some(v) => Ok(v),
            None => Err(ElementError::Overflow),
        }
    }

    fn sub(self, other: u64) -> (r: Result<u64, ElementError>) {
        match self.checked_sub(other) {
            Some(v) => Ok(v),
            None => Err(ElementError::Overflow),
        }
    }

    fn mul(self, other: u64) -> (r: Result<u64, ElementError>) {
        match self.checked_mul(other) {
            Some(v) => Ok(v),
            None => Err(ElementError::Overflow),
        }
    }

    fn div(self, other: u64) -> (r: Result<u64, ElementError>) {
        if other == 0 {
            Err(ElementError::DivisionByZero)
        } else {
            proof {
                lemma_quotient_of_naturals(self as int, other as int);
            }
            Ok(self / other)
        }
    }
}

impl IntegerLike for u128 {
    open spec fn number(self) -> int {
        self as int
    }

    open spec fn from_number(n: int) -> u128 {
        n as u128
    }

    open spec fn least() -> int {
        u128::MIN as int
    }

    open spec fn greatest() -> int {
        u128::MAX as int
    }

    open spec fn numeric(self) -> NumericValue {
        NumericValue::U128(self)
    }

    open spec fn recovered(value: NumericValue) -> Option<u128> {
        match value {
            NumericValue::U128(v) => Some(v),
            _ => None,
        }
    }

    fn from_numeric_value(value: &NumericValue) -> (r: Option<u128>) {
        match value {
            NumericValue::U128(v) => Some(*v),
            _ => None,
        }
    }

    fn to_numeric_value(self) -> (r: NumericValue) {
        NumericValue::U128(self)
    }

    fn formatted(self) -> (text: String) {
        let wide = self as u128;
        assert(wide as int == self.number());
        format_unsigned(wide)
    }

    fn add(self, other: u128) -> (r: Result<u128, ElementError>) {
        match self.checked_add(other) {
            Some(v) => Ok(v),
            None => Err(ElementError::Overflow),
        }
    }

    fn sub(self, other: u128) -> (r: Result<u128, ElementError>) {
        match self.checked_sub(other) {
            Some(v) => Ok(v),
            None => Err(ElementError::Overflow),
        }
    }

    fn mul(self, other: u128) -> (r: Result<u128, ElementError>) {
        match self.checked_mul(other) {
            Some(v) => Ok(v),
            None => Err(ElementError::Overflow),
        }
    }

    fn div(self, other: u128) -> (r: Result<u128, ElementError>) {
        if other == 0 {
            Err(ElementError::DivisionByZero)
        } else {
            proof {
                lemma_quotient_of_naturals(self as int, other as int);
            }
            Ok(self / other)
        }
    }
}

impl IntegerLike for usize {
    open spec fn number(self) -> int {
        self as int
    }

    open spec fn from_number(n: int) -> usize {
        n as usize
    }

    open spec fn least() -> int {
        usize::MIN as int
    }

    open spec fn greatest() -> int {
        usize::MAX as int
    }

    open spec fn numeric(self) -> NumericValue {
        NumericValue::Usize(self)
    }

    open spec fn recovered(value: NumericValue) -> Option<usize> {
        match value {
            NumericValue::Usize(v) => Some(v),
            _ => None,
        }
    }

    fn from_numeric_value(value: &NumericValue) -> (r: Option<usize>) {
        match value {
            NumericValue::Usize(v) => Some(*v),
            _ => None,
        }
    }

    fn to_numeric_value(self) -> (r: NumericValue) {
        NumericValue::Usize(self)
    }

    fn formatted(self) -> (text: String) {
        let wide = self as u128;
        assert(wide as int == self.number());
        format_unsigned(wide)
    }

    fn add(self, other: usize) -> (r: Result<usize, ElementError>) {
        match self.checked_add(other) {
            Some(v) => Ok(v),
            None => Err(ElementError::Overflow),
        }
    }

    fn sub(self, other: usize) -> (r: Result<usize, ElementError>) {
        match self.checked_sub(other) {
            Some(v) => Ok(v),
            None => Err(ElementError::Overflow),
        }
    }

    fn mul(self, other: usize) -> (r: Result<usize, ElementError>) {
        match self.checked_mul(other) {
            Some(v) => Ok(v),
            None => Err(ElementError::Overflow),
        }
    }

    fn div(self, other: usize) -> (r: Result<usize, ElementError>) {
        if other == 0 {
            Err(ElementError::DivisionByZero)
        } else {
            proof {
                lemma_quotient_of_naturals(self as int, other as int);
            }
            Ok(self / other)
        }
    }
}

/// An integer, displayed with its digits grouped.
#[derive(Debug, Clone, Copy)]
pub struct Integer<T: IntegerLike>(pub T);

/// An integer followed by a unit.
#[derive(Debug)]
pub struct IntegerUnit<T: IntegerLike>(pub T, pub String);

/// A change to the integer that a node holds.
#[derive(Debug)]
pub enum IntegerDelta<T: IntegerLike> {
    Add(T),
    Sub(T),
    Mul(T),
    Div(T),
}

impl<T: IntegerLike> Integer<T> {
    /// The delta that adds this integer to the one at the node.
    pub fn add(self) -> (delta: IntegerDelta<T>)
        ensures
            delta == IntegerDelta::Add(self.0),
    {
        IntegerDelta::Add(self.0)
    }

    /// The delta that subtracts this integer from the one at the node.
    pub fn sub(self) -> (delta: IntegerDelta<T>)
        ensures
            delta == IntegerDelta::Sub(self.0),
    {
        IntegerDelta::Sub(self.0)
    }

    /// The delta that multiplies the integer at the node by this one.
    pub fn mul(self) -> (delta: IntegerDelta<T>)
        ensures
            delta == IntegerDelta::Mul(self.0),
    {
        IntegerDelta::Mul(self.0)
    }

    /// The delta that divides the integer at the node by this one.
    pub fn div(self) -> (delta: IntegerDelta<T>)
        ensures
            delta == IntegerDelta::Div(self.0),
    {
        IntegerDelta::Div(self.0)
    }
}

/// The state of a node that was given the integer `value`: its text is the
/// integer with grouped digits, and the integer is kept for later deltas.
pub open spec fn with_integer<T: IntegerLike>(
    prior: SlotView,
    value: T,
    style_override: Option<Styles>,
) -> SlotView {
    SlotView {
        content: grouped(value.number()),
        style: resolved_style(prior.style, style_override),
        numeric: Some(value.numeric()),
        ..prior
    }
}

/// Gives a node the integer `value`.
pub fn store_integer<T: IntegerLike>(prior: &Slot, value: T, style_override: Option<Styles>) -> (slot:
    Slot)
    ensures
        slot@ == with_integer(prior@, value, style_override),
{
    Slot {
        content: value.formatted(),
        style: resolve_style(prior.style, style_override),
        numeric: Some(value.to_numeric_value()),
        timer: prior.timer,
        stopped: prior.stopped,
        progress: prior.progress,
    }
}

impl<T: IntegerLike> Element for Integer<T> {
    open spec fn evaluation(&self, prior: SlotView, style_override: Option<Styles>, now: u64) -> Result<
        SlotView,
        ElementError,
    > {
        Ok(with_integer(prior, self.0, style_override))
    }

    fn tick(&self, prior: &Slot, style_override: Option<Styles>, now: u64) -> (r: Result<
        Slot,
        ElementError,
    >) {
        Ok(store_integer(prior, self.0, style_override))
    }
}

impl<T: IntegerLike> Element for IntegerUnit<T> {
    /// The text is the integer with grouped digits, a blank and the unit.
    /// The integer is not kept.
    open spec fn evaluation(&self, prior: SlotView, style_override: Option<Styles>, now: u64) -> Result<
        SlotView,
        ElementError,
    > {
        Ok(with_content(prior, grouped(self.0.number()) + seq![' '] + self.1@, style_override))
    }

    fn tick(&self, prior: &Slot, style_override: Option<Styles>, now: u64) -> (r: Result<
        Slot,
        ElementError,
    >) {
        let mut content = self.0.formatted();
        content.push(' ');
        content.append(self.1.as_str());
        proof {
            assert(content@ =~= grouped(self.0.number()) + seq![' '] + self.1@);
        }
        Ok(replace_content(prior, content, style_override))
    }
}

impl<T: IntegerLike> IntegerDelta<T> {
    /// The integer that the delta makes of `current`.
    pub open spec fn applied(self, current: T) -> Result<T, ElementError> {
        match self {
            IntegerDelta::Add(d) => fitted::<T>(current.number() + d.number()),
            IntegerDelta::Sub(d) => fitted::<T>(current.number() - d.number()),
            IntegerDelta::Mul(d) => fitted::<T>(current.number() * d.number()),
            IntegerDelta::Div(d) => divided::<T>(current.number(), d.number()),
        }
    }

    /// The integer that the delta leaves at a node that holds `stored`. At
    /// a node without integer an addition starts from its operand and any
    /// other delta is refused; an integer of another width or signedness is
    /// refused too.
    pub open spec fn result(self, stored: Option<NumericValue>) -> Result<T, ElementError> {
        match stored {
            None => match self {
                IntegerDelta::Add(d) => Ok(d),
                _ => Err(ElementError::MissingValue),
            },
            Some(value) => match T::recovered(value) {
                None => Err(ElementError::ContextMismatch),
                Some(current) => self.applied(current),
            },
        }
    }

    /// Applies the delta to `current`.
    pub fn apply(&self, current: T) -> (r: Result<T, ElementError>)
        ensures
            r == self.applied(current),
    {
        match self {
            IntegerDelta::Add(d) => current.add(*d),
            IntegerDelta::Sub(d) => current.sub(*d),
            IntegerDelta::Mul(d) => current.mul(*d),
            IntegerDelta::Div(d) => current.div(*d),
        }
    }

    /// The integer that the delta leaves at a node that holds `stored`.
    pub fn resolve(&self, stored: &Option<NumericValue>) -> (r: Result<T, ElementError>)
        ensures
            r == self.result(*stored),
    {
        match stored {
            None => match self {
                IntegerDelta::Add(d) => Ok(*d),
                _ => Err(ElementError::MissingValue),
            },
            Some(value) => match T::from_numeric_value(value) {
                None => Err(ElementError::ContextMismatch),
                Some(current) => self.apply(current),
            },
        }
    }
}

impl<T: IntegerLike> Element for IntegerDelta<T> {
    /// The node is given the integer that the delta leaves; where the delta
    /// is refused, so is the element.
    open spec fn evaluation(&self, prior: SlotView, style_override: Option<Styles>, now: u64) -> Result<
        SlotView,
        ElementError,
    > {
        match self.result(prior.numeric) {
            Ok(value) => Ok(with_integer(prior, value, style_override)),
            Err(e) => Err(e),
        }
    }

    fn tick(&self, prior: &Slot, style_override: Option<Styles>, now: u64) -> (r: Result<
        Slot,
        ElementError,
    >) {
        match self.resolve(&prior.numeric) {
            Ok(value) => Ok(store_integer(prior, value, style_override)),
            Err(e) => Err(e),
        }
    }
}

} // verus!
