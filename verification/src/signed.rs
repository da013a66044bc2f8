//! The signed integer kinds.

use vstd::prelude::*;
use crate::primitive::Primitive;
use crate::wrap::{lemma_wrapped_near, lemma_wrapped_signed};

verus! {

impl Primitive for i8 {
    open spec fn value(self) -> int {
        self as int
    }

    open spec fn least() -> int {
        i8::MIN as int
    }

    open spec fn greatest() -> int {
        i8::MAX as int
    }

    open spec fn from_value(v: int) -> i8 {
        v as i8
    }

    proof fn lemma_kind() {
    }

    fn zero() -> (z: i8) {
        0
    }

    fn one() -> (o: i8) {
        1
    }

    fn plus(self, rhs: i8) -> (r: i8) {
        self + rhs
    }

    fn times(self, rhs: i8) -> (r: i8) {
        self * rhs
    }

    fn wrapping_plus(self, rhs: i8) -> (r: i8) {
        proof {
            lemma_wrapped_near(self + rhs, i8::MIN as int, i8::MAX as int);
        }
        self.wrapping_add(rhs)
    }

    fn wrapping_times(self, rhs: i8) -> (r: i8) {
        proof {
            lemma_wrapped_signed(self * rhs, i8::MAX as int);
        }
        self.wrapping_mul(rhs)
    }
}

impl Primitive for i16 {
    open spec fn value(self) -> int {
        self as int
    }

    open spec fn least() -> int {
        i16::MIN as int
    }

    open spec fn greatest() -> int {
        i16::MAX as int
    }

    open spec fn from_value(v: int) -> i16 {
        v as i16
    }

    proof fn lemma_kind() {
    }

    fn zero() -> (z: i16) {
        0
    }

    fn one() -> (o: i16) {
        1
    }

    fn plus(self, rhs: i16) -> (r: i16) {
        self + rhs
    }

    fn times(self, rhs: i16) -> (r: i16) {
        self * rhs
    }

    fn wrapping_plus(self, rhs: i16) -> (r: i16) {
        proof {
            lemma_wrapped_near(self + rhs, i16::MIN as int, i16::MAX as int);
        }
        self.wrapping_add(rhs)
    }

    fn wrapping_times(self, rhs: i16) -> (r: i16) {
        proof {
            lemma_wrapped_signed(self * rhs, i16::MAX as int);
        }
        self.wrapping_mul(rhs)
    }
}

impl Primitive for i32 {
    open spec fn value(self) -> int {
        self as int
    }

    open spec fn least() -> int {
        i32::MIN as int
    }

    open spec fn greatest() -> int {
        i32::MAX as int
    }

    open spec fn from_value(v: int) -> i32 {
        v as i32
    }

    proof fn lemma_kind() {
    }

    fn zero() -> (z: i32) {
        0
    }

    fn one() -> (o: i32) {
        1
    }

    fn plus(self, rhs: i32) -> (r: i32) {
        self + rhs
    }

    fn times(self, rhs: i32) -> (r: i32) {
        self * rhs
    }

    fn wrapping_plus(self, rhs: i32) -> (r: i32) {
        proof {
            lemma_wrapped_near(self + rhs, i32::MIN as int, i32::MAX as int);
        }
        self.wrapping_add(rhs)
    }

    fn wrapping_times(self, rhs: i32) -> (r: i32) {
        proof {
            lemma_wrapped_signed(self * rhs, i32::MAX as int);
        }
        self.wrapping_mul(rhs)
    }
}

impl Primitive for i64 {
    open spec fn value(self) -> int {
        self as int
    }

    open spec fn least() -> int {
        i64::MIN as int
    }

    open spec fn greatest() -> int {
        i64::MAX as int
    }

    open spec fn from_value(v: int) -> i64 {
        v as i64
    }

    proof fn lemma_kind() {
    }

    fn zero() -> (z: i64) {
        0
    }

    fn one() -> (o: i64) {
        1
    }

    fn plus(self, rhs: i64) -> (r: i64) {
        self + rhs
    }

    fn times(self, rhs: i64) -> (r: i64) {
        self * rhs
    }

    fn wrapping_plus(self, rhs: i64) -> (r: i64) {
        proof {
            lemma_wrapped_near(self + rhs, i64::MIN as int, i64::MAX as int);
        }
        self.wrapping_add(rhs)
    }

    fn wrapping_times(self, rhs: i64) -> (r: i64) {
        proof {
            lemma_wrapped_signed(self * rhs, i64::MAX as int);
        }
        self.wrapping_mul(rhs)
    }
}

impl Primitive for i128 {
    open spec fn value(self) -> int {
        self as int
    }

    open spec fn least() -> int {
        i128::MIN as int
    }

    open spec fn greatest() -> int {
        i128::MAX as int
    }

    open spec fn from_value(v: int) -> i128 {
        v as i128
    }

    proof fn lemma_kind() {
    }

    fn zero() -> (z: i128) {
        0
    }

    fn one() -> (o: i128) {
        1
    }

    fn plus(self, rhs: i128) -> (r: i128) {
        self + rhs
    }

    fn times(self, rhs: i128) -> (r: i128) {
        self * rhs
    }

    fn wrapping_plus(self, rhs: i128) -> (r: i128) {
        proof {
            lemma_wrapped_near(self + rhs, i128::MIN as int, i128::MAX as int);
        }
        self.wrapping_add(rhs)
    }

    fn wrapping_times(self, rhs: i128) -> (r: i128) {
        proof {
            lemma_wrapped_signed(self * rhs, i128::MAX as int);
        }
        self.wrapping_mul(rhs)
    }
}

impl Primitive for isize {
    open spec fn value(self) -> int {
        self as int
    }

    open spec fn least() -> int {
        isize::MIN as int
    }

    open spec fn greatest() -> int {
        isize::MAX as int
    }

    open spec fn from_value(v: int) -> isize {
        v as isize
    }

    proof fn lemma_kind() {
    }

    fn zero() -> (z: isize) {
        0
    }

    fn one() -> (o: isize) {
        1
    }

    fn plus(self, rhs: isize) -> (r: isize) {
        self + rhs
    }

    fn times(self, rhs: isize) -> (r: isize) {
        self * rhs
    }

    fn wrapping_plus(self, rhs: isize) -> (r: isize) {
        proof {
            lemma_wrapped_near(self + rhs, isize::MIN as int, isize::MAX as int);
        }
        self.wrapping_add(rhs)
    }

    fn wrapping_times(self, rhs: isize) -> (r: isize) {
        proof {
            lemma_wrapped_signed(self * rhs, isize::MAX as int);
        }
        self.wrapping_mul(rhs)
    }
}

} // verus!
