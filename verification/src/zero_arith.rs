//! Arithmetic that yields zero where the checked operation has no result.
use vstd::prelude::*;

verus! {

/// Integer arithmetic that answers zero where the checked operation fails (overflow,
/// or division by zero).
pub trait ZeroArith: Sized {
    fn zero_add(self, other: Self) -> Self;

    fn zero_sub(self, other: Self) -> Self;

    fn zero_mul(self, other: Self) -> Self;

    fn zero_div(self, other: Self) -> Self;
}

impl ZeroArith for isize {
    /// The sum, or zero when it does not fit.
    fn zero_add(self, other: isize) -> (r: isize)
        ensures
            r == (if isize::MIN <= self + other <= isize::MAX {
                (self + other) as isize
            } else {
                0
            }),
    {
        match self.checked_add(other) {
            Some(res) => res,
            None => 0,
        }
    }

    /// The difference, or zero when it does not fit.
    fn zero_sub(self, other: isize) -> (r: isize)
        ensures
            r == (if isize::MIN <= self - other <= isize::MAX {
                (self - other) as isize
            } else {
                0
            }),
    {
        match self.checked_sub(other) {
            Some(res) => res,
            None => 0,
        }
    }

    /// The product, or zero when it does not fit.
    fn zero_mul(self, other: isize) -> (r: isize)
        ensures
            r == (if isize::MIN <= self * other <= isize::MAX {
                (self * other) as isize
            } else {
                0
            }),
    {
        match self.checked_mul(other) {
            Some(res) => res,
            None => 0,
        }
    }

    /// The quotient rounded toward zero, or zero when the divisor is zero or the
    /// quotient does not fit.
    fn zero_div(self, other: isize) -> (r: isize)
        ensures
            r == (match self.checked_div(other) {
                Some(v) => v,
                None => 0,
            }),
            other == 0 ==> r == 0,
            other == -1 && self == isize::MIN ==> r == 0,
            self >= 0 && other > 0 ==> r == self / other,
    {
        match self.checked_div(other) {
            Some(res) => res,
            None => 0,
        }
    }
}

impl ZeroArith for i8 {
    /// The sum, or zero when it does not fit.
    fn zero_add(self, other: i8) -> (r: i8)
        ensures
            r == (if i8::MIN <= self + other <= i8::MAX {
                (self + other) as i8
            } else {
                0
            }),
    {
        match self.checked_add(other) {
            Some(res) => res,
            None => 0,
        }
    }

    /// The difference, or zero when it does not fit.
    fn zero_sub(self, other: i8) -> (r: i8)
        ensures
            r == (if i8::MIN <= self - other <= i8::MAX {
                (self - other) as i8
            } else {
                0
            }),
    {
        match self.checked_sub(other) {
            Some(res) => res,
            None => 0,
        }
    }

    /// The product, or zero when it does not fit.
    fn zero_mul(self, other: i8) -> (r: i8)
        ensures
            r == (if i8::MIN <= self * other <= i8::MAX {
                (self * other) as i8
            } else {
                0
            }),
    {
        match self.checked_mul(other) {
            Some(res) => res,
            None => 0,
        }
    }

    /// The quotient rounded toward zero, or zero when the divisor is zero or the
    /// quotient does not fit.
    fn zero_div(self, other: i8) -> (r: i8)
        ensures
            r == (match self.checked_div(other) {
                Some(v) => v,
                None => 0,
            }),
            other == 0 ==> r == 0,
            other == -1 && self == i8::MIN ==> r == 0,
            self >= 0 && other > 0 ==> r == self / other,
    {
        match self.checked_div(other) {
            Some(res) => res,
            None => 0,
        }
    }
}

impl ZeroArith for i16 {
    /// The sum, or zero when it does not fit.
    fn zero_add(self, other: i16) -> (r: i16)
        ensures
            r == (if i16::MIN <= self + other <= i16::MAX {
                (self + other) as i16
            } else {
                0
            }),
    {
        match self.checked_add(other) {
            Some(res) => res,
            None => 0,
        }
    }

    /// The difference, or zero when it does not fit.
    fn zero_sub(self, other: i16) -> (r: i16)
        ensures
            r == (if i16::MIN <= self - other <= i16::MAX {
                (self - other) as i16
            } else {
                0
            }),
    {
        match self.checked_sub(other) {
            Some(res) => res,
            None => 0,
        }
    }

    /// The product, or zero when it does not fit.
    fn zero_mul(self, other: i16) -> (r: i16)
        ensures
            r == (if i16::MIN <= self * other <= i16::MAX {
                (self * other) as i16
            } else {
                0
            }),
    {
        match self.checked_mul(other) {
            Some(res) => res,
            None => 0,
        }
    }

    /// The quotient rounded toward zero, or zero when the divisor is zero or the
    /// quotient does not fit.
    fn zero_div(self, other: i16) -> (r: i16)
        ensures
            r == (match self.checked_div(other) {
                Some(v) => v,
                None => 0,
            }),
            other == 0 ==> r == 0,
            other == -1 && self == i16::MIN ==> r == 0,
            self >= 0 && other > 0 ==> r == self / other,
    {
        match self.checked_div(other) {
            Some(res) => res,
            None => 0,
        }
    }
}

impl ZeroArith for i32 {
    /// The sum, or zero when it does not fit.
    fn zero_add(self, other: i32) -> (r: i32)
        ensures
            r == (if i32::MIN <= self + other <= i32::MAX {
                (self + other) as i32
            } else {
                0
            }),
    {
        match self.checked_add(other) {
            Some(res) => res,
            None => 0,
        }
    }

    /// The difference, or zero when it does not fit.
    fn zero_sub(self, other: i32) -> (r: i32)
        ensures
            r == (if i32::MIN <= self - other <= i32::MAX {
                (self - other) as i32
            } else {
                0
            }),
    {
        match self.checked_sub(other) {
            Some(res) => res,
            None => 0,
        }
    }

    /// The product, or zero when it does not fit.
    fn zero_mul(self, other: i32) -> (r: i32)
        ensures
            r == (if i32::MIN <= self * other <= i32::MAX {
                (self * other) as i32
            } else {
                0
            }),
    {
        match self.checked_mul(other) {
            Some(res) => res,
            None => 0,
        }
    }

    /// The quotient rounded toward zero, or zero when the divisor is zero or the
    /// quotient does not fit.
    fn zero_div(self, other: i32) -> (r: i32)
        ensures
            r == (match self.checked_div(other) {
                Some(v) => v,
                None => 0,
            }),
            other == 0 ==> r == 0,
            other == -1 && self == i32::MIN ==> r == 0,
            self >= 0 && other > 0 ==> r == self / other,
    {
        match self.checked_div(other) {
            Some(res) => res,
            None => 0,
        }
    }
}

impl ZeroArith for i64 {
    /// The sum, or zero when it does not fit.
    fn zero_add(self, other: i64) -> (r: i64)
        ensures
            r == (if i64::MIN <= self + other <= i64::MAX {
                (self + other) as i64
            } else {
                0
            }),
    {
        match self.checked_add(other) {
            Some(res) => res,
            None => 0,
        }
    }

    /// The difference, or zero when it does not fit.
    fn zero_sub(self, other: i64) -> (r: i64)
        ensures
            r == (if i64::MIN <= self - other <= i64::MAX {
                (self - other) as i64
            } else {
                0
            }),
    {
        match self.checked_sub(other) {
            Some(res) => res,
            None => 0,
        }
    }

    /// The product, or zero when it does not fit.
    fn zero_mul(self, other: i64) -> (r: i64)
        ensures
            r == (if i64::MIN <= self * other <= i64::MAX {
                (self * other) as i64
            } else {
                0
            }),
    {
        match self.checked_mul(other) {
            Some(res) => res,
            None => 0,
        }
    }

    /// The quotient rounded toward zero, or zero when the divisor is zero or the
    /// quotient does not fit.
    fn zero_div(self, other: i64) -> (r: i64)
        ensures
            r == (match self.checked_div(other) {
                Some(v) => v,
                None => 0,
            }),
            other == 0 ==> r == 0,
            other == -1 && self == i64::MIN ==> r == 0,
            self >= 0 && other > 0 ==> r == self / other,
    {
        match self.checked_div(other) {
            Some(res) => res,
            None => 0,
        }
    }
}

impl ZeroArith for i128 {
    /// The sum, or zero when it does not fit.
    fn zero_add(self, other: i128) -> (r: i128)
        ensures
            r == (if i128::MIN <= self + other <= i128::MAX {
                (self + other) as i128
            } else {
                0
            }),
    {
        match self.checked_add(other) {
            Some(res) => res,
            None => 0,
        }
    }

    /// The difference, or zero when it does not fit.
    fn zero_sub(self, other: i128) -> (r: i128)
        ensures
            r == (if i128::MIN <= self - other <= i128::MAX {
                (self - other) as i128
            } else {
                0
            }),
    {
        match self.checked_sub(other) {
            Some(res) => res,
            None => 0,
        }
    }

    /// The product, or zero when it does not fit.
    fn zero_mul(self, other: i128) -> (r: i128)
        ensures
            r == (if i128::MIN <= self * other <= i128::MAX {
                (self * other) as i128
            } else {
                0
            }),
    {
        match self.checked_mul(other) {
            Some(res) => res,
            None => 0,
        }
    }

    /// The quotient rounded toward zero, or zero when the divisor is zero or the
    /// quotient does not fit.
    fn zero_div(self, other: i128) -> (r: i128)
        ensures
            r == (match self.checked_div(other) {
                Some(v) => v,
                None => 0,
            }),
            other == 0 ==> r == 0,
            other == -1 && self == i128::MIN ==> r == 0,
            self >= 0 && other > 0 ==> r == self / other,
    {
        match self.checked_div(other) {
            Some(res) => res,
            None => 0,
        }
    }
}

impl ZeroArith for usize {
    /// The sum, or zero when it does not fit.
    fn zero_add(self, other: usize) -> (r: usize)
        ensures
            r == (if usize::MIN <= self + other <= usize::MAX {
                (self + other) as usize
            } else {
                0
            }),
    {
        match self.checked_add(other) {
            Some(res) => res,
            None => 0,
        }
    }

    /// The difference, or zero when it does not fit.
    fn zero_sub(self, other: usize) -> (r: usize)
        ensures
            r == (if usize::MIN <= self - other <= usize::MAX {
                (self - other) as usize
            } else {
                0
            }),
    {
        match self.checked_sub(other) {
            Some(res) => res,
            None => 0,
        }
    }

    /// The product, or zero when it does not fit.
    fn zero_mul(self, other: usize) -> (r: usize)
        ensures
            r == (if usize::MIN <= self * other <= usize::MAX {
                (self * other) as usize
            } else {
                0
            }),
    {
        match self.checked_mul(other) {
            Some(res) => res,
            None => 0,
        }
    }

    /// The quotient, or zero when the divisor is zero.
    fn zero_div(self, other: usize) -> (r: usize)
        ensures
            r == (if other == 0 {
                0
            } else {
                self / other
            }),
    {
        match self.checked_div(other) {
            Some(res) => res,
            None => 0,
        }
    }
}

impl ZeroArith for u8 {
    /// The sum, or zero when it does not fit.
    fn zero_add(self, other: u8) -> (r: u8)
        ensures
            r == (if u8::MIN <= self + other <= u8::MAX {
                (self + other) as u8
            } else {
                0
            }),
    {
        match self.checked_add(other) {
            Some(res) => res,
            None => 0,
        }
    }

    /// The difference, or zero when it does not fit.
    fn zero_sub(self, other: u8) -> (r: u8)
        ensures
            r == (if u8::MIN <= self - other <= u8::MAX {
                (self - other) as u8
            } else {
                0
            }),
    {
        match self.checked_sub(other) {
            Some(res) => res,
            None => 0,
        }
    }

    /// The product, or zero when it does not fit.
    fn zero_mul(self, other: u8) -> (r: u8)
        ensures
            r == (if u8::MIN <= self * other <= u8::MAX {
                (self * other) as u8
            } else {
                0
            }),
    {
        match self.checked_mul(other) {
            Some(res) => res,
            None => 0,
        }
    }

    /// The quotient, or zero when the divisor is zero.
    fn zero_div(self, other: u8) -> (r: u8)
        ensures
            r == (if other == 0 {
                0
            } else {
                self / other
            }),
    {
        match self.checked_div(other) {
            Some(res) => res,
            None => 0,
        }
    }
}

impl ZeroArith for u16 {
    /// The sum, or zero when it does not fit.
    fn zero_add(self, other: u16) -> (r: u16)
        ensures
            r == (if u16::MIN <= self + other <= u16::MAX {
                (self + other) as u16
            } else {
                0
            }),
    {
        match self.checked_add(other) {
            Some(res) => res,
            None => 0,
        }
    }

    /// The difference, or zero when it does not fit.
    fn zero_sub(self, other: u16) -> (r: u16)
        ensures
            r == (if u16::MIN <= self - other <= u16::MAX {
                (self - other) as u16
            } else {
                0
            }),
    {
        match self.checked_sub(other) {
            Some(res) => res,
            None => 0,
        }
    }

    /// The product, or zero when it does not fit.
    fn zero_mul(self, other: u16) -> (r: u16)
        ensures
            r == (if u16::MIN <= self * other <= u16::MAX {
                (self * other) as u16
            } else {
                0
            }),
    {
        match self.checked_mul(other) {
            Some(res) => res,
            None => 0,
        }
    }

    /// The quotient, or zero when the divisor is zero.
    fn zero_div(self, other: u16) -> (r: u16)
        ensures
            r == (if other == 0 {
                0
            } else {
                self / other
            }),
    {
        match self.checked_div(other) {
            Some(res) => res,
            None => 0,
        }
    }
}

impl ZeroArith for u32 {
    /// The sum, or zero when it does not fit.
    fn zero_add(self, other: u32) -> (r: u32)
        ensures
            r == (if u32::MIN <= self + other <= u32::MAX {
                (self + other) as u32
            } else {
                0
            }),
    {
        match self.checked_add(other) {
            Some(res) => res,
            None => 0,
        }
    }

    /// The difference, or zero when it does not fit.
    fn zero_sub(self, other: u32) -> (r: u32)
        ensures
            r == (if u32::MIN <= self - other <= u32::MAX {
                (self - other) as u32
            } else {
                0
            }),
    {
        match self.checked_sub(other) {
            Some(res) => res,
            None => 0,
        }
    }

    /// The product, or zero when it does not fit.
    fn zero_mul(self, other: u32) -> (r: u32)
        ensures
            r == (if u32::MIN <= self * other <= u32::MAX {
                (self * other) as u32
            } else {
                0
            }),
    {
        match self.checked_mul(other) {
            Some(res) => res,
            None => 0,
        }
    }

    /// The quotient, or zero when the divisor is zero.
    fn zero_div(self, other: u32) -> (r: u32)
        ensures
            r == (if other == 0 {
                0
            } else {
                self / other
            }),
    {
        match self.checked_div(other) {
            Some(res) => res,
            None => 0,
        }
    }
}

impl ZeroArith for u64 {
    /// The sum, or zero when it does not fit.
    fn zero_add(self, other: u64) -> (r: u64)
        ensures
            r == (if u64::MIN <= self + other <= u64::MAX {
                (self + other) as u64
            } else {
                0
            }),
    {
        match self.checked_add(other) {
            Some(res) => res,
            None => 0,
        }
    }

    /// The difference, or zero when it does not fit.
    fn zero_sub(self, other: u64) -> (r: u64)
        ensures
            r == (if u64::MIN <= self - other <= u64::MAX {
                (self - other) as u64
            } else {
                0
            }),
    {
        match self.checked_sub(other) {
            Some(res) => res,
            None => 0,
        }
    }

    /// The product, or zero when it does not fit.
    fn zero_mul(self, other: u64) -> (r: u64)
        ensures
            r == (if u64::MIN <= self * other <= u64::MAX {
                (self * other) as u64
            } else {
                0
            }),
    {
        match self.checked_mul(other) {
            Some(res) => res,
            None => 0,
        }
    }

    /// The quotient, or zero when the divisor is zero.
    fn zero_div(self, other: u64) -> (r: u64)
        ensures
            r == (if other == 0 {
                0
            } else {
                self / other
            }),
    {
        match self.checked_div(other) {
            Some(res) => res,
            None => 0,
        }
    }
}

impl ZeroArith for u128 {
    /// The sum, or zero when it does not fit.
    fn zero_add(self, other: u128) -> (r: u128)
        ensures
            r == (if u128::MIN <= self + other <= u128::MAX {
                (self + other) as u128
            } else {
                0
            }),
    {
        match self.checked_add(other) {
            Some(res) => res,
            None => 0,
        }
    }

    /// The difference, or zero when it does not fit.
    fn zero_sub(self, other: u128) -> (r: u128)
        ensures
            r == (if u128::MIN <= self - other <= u128::MAX {
                (self - other) as u128
            } else {
                0
            }),
    {
        match self.checked_sub(other) {
            Some(res) => res,
            None => 0,
        }
    }

    /// The product, or zero when it does not fit.
    fn zero_mul(self, other: u128) -> (r: u128)
        ensures
            r == (if u128::MIN <= self * other <= u128::MAX {
                (self * other) as u128
            } else {
                0
            }),
    {
        match self.checked_mul(other) {
            Some(res) => res,
            None => 0,
        }
    }

    /// The quotient, or zero when the divisor is zero.
    fn zero_div(self, other: u128) -> (r: u128)
        ensures
            r == (if other == 0 {
                0
            } else {
                self / other
            }),
    {
        match self.checked_div(other) {
            Some(res) => res,
            None => 0,
        }
    }
}

} // verus!
