//! The column builders of the `arrow` crate, one value appended at a time.
//!
//! A builder is held as it is, and nothing is known of what is inside it
//! but what the functions here state: each is one call of the builder, taken
//! on trust from that crate.

use vstd::prelude::*;
use arrow::array::DurationMicrosecondBuilder;
use arrow::array::Float64Builder;
use arrow::array::TimestampMicrosecondBuilder;
use arrow::array::UInt32Builder;
use arrow::datatypes::ArrowPrimitiveType;
use arrow::datatypes::Float64Type;

verus! {

/// A column of unsigned 32-bit integers in the making: a `UInt32Builder`.
#[verifier::external_body]
pub struct KeyColumn {
    inner: UInt32Builder,
}

/// A column of binary64 numbers in the making: a `Float64Builder`.
#[verifier::external_body]
pub struct NumberColumn {
    inner: Float64Builder,
}

/// A column of instants in the making: a `TimestampMicrosecondBuilder`.
#[verifier::external_body]
pub struct InstantColumn {
    inner: TimestampMicrosecondBuilder,
}

/// A column of durations in the making: a `DurationMicrosecondBuilder`.
#[verifier::external_body]
pub struct SpanColumn {
    inner: DurationMicrosecondBuilder,
}

/// The values that were appended to the builder since it was new or last
/// cleared, in order.
pub uninterp spec fn key_values(column: KeyColumn) -> Seq<u32>;

/// The values that were appended to the builder since it was new or last
/// cleared, in order, each as its bit pattern.
pub uninterp spec fn number_values(column: NumberColumn) -> Seq<u64>;

/// The values that were appended to the builder since it was new or last
/// cleared, in order, in microseconds since the Unix epoch.
pub uninterp spec fn instant_values(column: InstantColumn) -> Seq<i64>;

/// The values that were appended to the builder since it was new or last
/// cleared, in order, in microseconds.
pub uninterp spec fn span_values(column: SpanColumn) -> Seq<i64>;

impl KeyColumn {
    /// `PrimitiveBuilder::new`: a builder without values.
    #[verifier::external_body]
    pub(crate) fn new() -> (column: Self)
        ensures
            key_values(column) == Seq::<u32>::empty(),
    {
        KeyColumn { inner: UInt32Builder::new() }
    }

    /// `PrimitiveBuilder::append_value`: the value comes after those that
    /// the builder holds.
    #[verifier::external_body]
    pub(crate) fn append(&mut self, value: u32)
        ensures
            key_values(*final(self)) == key_values(*old(self)).push(value),
    {
        self.inner.append_value(value);
    }

    /// `PrimitiveBuilder::values_slice`, for the number of values.
    #[verifier::external_body]
    pub(crate) fn len(&self) -> (n: usize)
        ensures
            n == key_values(*self).len(),
    {
        self.inner.values_slice().len()
    }

    /// `PrimitiveBuilder::values_slice`: a copy of the values, in order.
    /// The builder keeps them.
    #[verifier::external_body]
    pub(crate) fn values(&self) -> (values: Vec<u32>)
        ensures
            values@ == key_values(*self),
    {
        self.inner.values_slice().to_vec()
    }

    /// `PrimitiveBuilder::finish`, whose array is dropped: the builder is
    /// left without values.
    #[verifier::external_body]
    pub(crate) fn clear(&mut self)
        ensures
            key_values(*final(self)) == Seq::<u32>::empty(),
    {
        let _ = self.inner.finish();
    }
}

impl NumberColumn {
    /// `PrimitiveBuilder::new`: a builder without values.
    #[verifier::external_body]
    pub(crate) fn new() -> (column: Self)
        ensures
            number_values(column) == Seq::<u64>::empty(),
    {
        NumberColumn { inner: Float64Builder::new() }
    }

    /// `PrimitiveBuilder::append_value` with the number of the given bit
    /// pattern: it comes after those that the builder holds.
    #[verifier::external_body]
    pub(crate) fn append(&mut self, bits: u64)
        ensures
            number_values(*final(self)) == number_values(*old(self)).push(bits),
    {
        self.inner.append_value(<Float64Type as ArrowPrimitiveType>::Native::from_bits(bits));
    }

    /// `PrimitiveBuilder::values_slice`: a copy of the values, in order,
    /// each as its bit pattern. The builder keeps them.
    #[verifier::external_body]
    pub(crate) fn values(&self) -> (values: Vec<u64>)
        ensures
            values@ == number_values(*self),
    {
        self.inner.values_slice().iter().map(|value| value.to_bits()).collect()
    }

    /// `PrimitiveBuilder::finish`, whose array is dropped: the builder is
    /// left without values.
    #[verifier::external_body]
    pub(crate) fn clear(&mut self)
        ensures
            number_values(*final(self)) == Seq::<u64>::empty(),
    {
        let _ = self.inner.finish();
    }
}

impl InstantColumn {
    /// `PrimitiveBuilder::new`: a builder without values.
    #[verifier::external_body]
    pub(crate) fn new() -> (column: Self)
        ensures
            instant_values(column) == Seq::<i64>::empty(),
    {
        InstantColumn { inner: TimestampMicrosecondBuilder::new() }
    }

    /// `PrimitiveBuilder::append_value`: the value comes after those that
    /// the builder holds.
    #[verifier::external_body]
    pub(crate) fn append(&mut self, micros: i64)
        ensures
            instant_values(*final(self)) == instant_values(*old(self)).push(micros),
    {
        self.inner.append_value(micros);
    }

    /// `PrimitiveBuilder::values_slice`: a copy of the values, in order.
    /// The builder keeps them.
    #[verifier::external_body]
    pub(crate) fn values(&self) -> (values: Vec<i64>)
        ensures
            values@ == instant_values(*self),
    {
        self.inner.values_slice().to_vec()
    }

    /// `PrimitiveBuilder::finish`, whose array is dropped: the builder is
    /// left without values.
    #[verifier::external_body]
    pub(crate) fn clear(&mut self)
        ensures
            instant_values(*final(self)) == Seq::<i64>::empty(),
    {
        let _ = self.inner.finish();
    }
}

impl SpanColumn {
    /// `PrimitiveBuilder::new`: a builder without values.
    #[verifier::external_body]
    pub(crate) fn new() -> (column: Self)
        ensures
            span_values(column) == Seq::<i64>::empty(),
    {
        SpanColumn { inner: DurationMicrosecondBuilder::new() }
    }

    /// `PrimitiveBuilder::append_value`: the value comes after those that
    /// the builder holds.
    #[verifier::external_body]
    pub(crate) fn append(&mut self, micros: i64)
        ensures
            span_values(*final(self)) == span_values(*old(self)).push(micros),
    {
        self.inner.append_value(micros);
    }

    /// `PrimitiveBuilder::values_slice`: a copy of the values, in order.
    /// The builder keeps them.
    #[verifier::external_body]
    pub(crate) fn values(&self) -> (values: Vec<i64>)
        ensures
            values@ == span_values(*self),
    {
        self.inner.values_slice().to_vec()
    }

    /// `PrimitiveBuilder::finish`, whose array is dropped: the builder is
    /// left without values.
    #[verifier::external_body]
    pub(crate) fn clear(&mut self)
        ensures
            span_values(*final(self)) == Seq::<i64>::empty(),
    {
        let _ = self.inner.finish();
    }
}

} // verus!
