//! The unsigned integer kinds.

use vstd::prelude::*;
use crate::primitive::Primitive;
use crate::wrap::lemma_wrapped_near;

verus! {

impl Primitive for u8 {
    open spec fn value(self) -> int {
        self as int
    }

    open spec fn least() -> int {
        0
    }

    open spec fn greatest() -> int {
        u8::MAX as int
    }

    open spec fn from_value(v: int) -> u8 {
        v as u8
    }

    proof fn lemma_kind() {
    }

    fn zero() -> (z: u8) {
        0
    }

    fn one() -> (o: u8) {
        1
    }

    fn plus(self, rhs: u8) -> (r: u8) {
        self + rhs
    }

    fn times(self, rhs: u8) -> (r: u8) {
        self * rhs
    }

    fn wrapping_plus(self, rhs: u8) -> (r: u8) {
        proof {
            lemma_wrapped_near(self + rhs, 0, u8::MAX as int);
        }
        self.wrapping_add(rhs)
    }

    fn wrapping_times(self, rhs: u8) -> (r: u8) {
        self.wrapping_mul(rhs)
    }
}

impl Primitive for u16 {
    open spec fn value(self) -> int {
        self as int
    }

    open spec fn least() -> int {
        0
    }

    open spec fn greatest() -> int {
        u16::MAX as int
    }

    open spec fn from_value(v: int) -> u16 {
        v as u16
    }

    proof fn lemma_kind() {
    }

    fn zero() -> (z: u16) {
        0
    }

    fn one() -> (o: u16) {
        1
    }

    fn plus(self, rhs: u16) -> (r: u16) {
        self + rhs
    }

    fn times(self, rhs: u16) -> (r: u16) {
        self * rhs
    }

    fn wrapping_plus(self, rhs: u16) -> (r: u16) {
        proof {
            lemma_wrapped_near(self + rhs, 0, u16::MAX as int);
        }
        self.wrapping_add(rhs)
    }

    fn wrapping_times(self, rhs: u16) -> (r: u16) {
        self.wrapping_mul(rhs)
    }
}

impl Primitive for u32 {
    open spec fn value(self) -> int {
        self as int
    }

    open spec fn least() -> int {
        0
    }

    open spec fn greatest() -> int {
        u32::MAX as int
    }

    open spec fn from_value(v: int) -> u32 {
        v as u32
    }

    proof fn lemma_kind() {
    }

    fn zero() -> (z: u32) {
        0
    }

    fn one() -> (o: u32) {
        1
    }

    fn plus(self, rhs: u32) -> (r: u32) {
        self + rhs
    }

    fn times(self, rhs: u32) -> (r: u32) {
        self * rhs
    }

    fn wrapping_plus(self, rhs: u32) -> (r: u32) {
        proof {
            lemma_wrapped_near(self + rhs, 0, u32::MAX as int);
        }
        self.wrapping_add(rhs)
    }

    fn wrapping_times(self, rhs: u32) -> (r: u32) {
        self.wrapping_mul(rhs)
    }
}

impl Primitive for u64 {
    open spec fn value(self) -> int {
        self as int
    }

    open spec fn least() -> int {
        0
    }

    open spec fn greatest() -> int {
        u64::MAX as int
    }

    open spec fn from_value(v: int) -> u64 {
        v as u64
    }

    proof fn lemma_kind() {
    }

    fn zero() -> (z: u64) {
        0
    }

    fn one() -> (o: u64) {
        1
    }

    fn plus(self, rhs: u64) -> (r: u64) {
        self + rhs
    }

    fn times(self, rhs: u64) -> (r: u64) {
        self * rhs
    }

    fn wrapping_plus(self, rhs: u64) -> (r: u64) {
        proof {
            lemma_wrapped_near(self + rhs, 0, u64::MAX as int);
        }
        self.wrapping_add(rhs)
    }

    fn wrapping_times(self, rhs: u64) -> (r: u64) {
        self.wrapping_mul(rhs)
    }
}

impl Primitive for u128 {
    open spec fn value(self) -> int {
        self as int
    }

    open spec fn least() -> int {
        0
    }

    open spec fn greatest() -> int {
        u128::MAX as int
    }

    open spec fn from_value(v: int) -> u128 {
        v as u128
    }

    proof fn lemma_kind() {
    }

    fn zero() -> (z: u128) {
        0
    }

    fn one() -> (o: u128) {
        1
    }

    fn plus(self, rhs: u128) -> (r: u128) {
        self + rhs
    }

    fn times(self, rhs: u128) -> (r: u128) {
        self * rhs
    }

    fn wrapping_plus(self, rhs: u128) -> (r: u128) {
        proof {
            lemma_wrapped_near(self + rhs, 0, u128::MAX as int);
        }
        self.wrapping_add(rhs)
    }

    fn wrapping_times(self, rhs: u128) -> (r: u128) {
        self.wrapping_mul(rhs)
    }
}

impl Primitive for usize {
    open spec fn value(self) -> int {
        self as int
    }

    open spec fn least() -> int {
        0
    }

    open spec fn greatest() -> int {
        usize::MAX as int
    }

    open spec fn from_value(v: int) -> usize {
        v as usize
    }

    proof fn lemma_kind() {
    }

    fn zero() -> (z: usize) {
        0
    }

    fn one() -> (o: usize) {
        1
    }

    fn plus(self, rhs: usize) -> (r: usize) {
        self + rhs
    }

    fn times(self, rhs: usize) -> (r: usize) {
        self * rhs
    }

    fn wrapping_plus(self, rhs: usize) -> (r: usize) {
        proof {
            lemma_wrapped_near(self + rhs, 0, usize::MAX as int);
        }
        self.wrapping_add(rhs)
    }

    fn wrapping_times(self, rhs: usize) -> (r: usize) {
        self.wrapping_mul(rhs)
    }
}

} // verus!
