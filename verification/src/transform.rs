//! Deferred mutations and their merge algebra.
//!
//! A `Transform` is one pending mutation of a single slot.  Transforms for
//! the same key produced within one execution are merge-reduced into at most
//! one net transform before commit.  The merge is associative — grouping
//! never changes the net transform — and a later write overwrites whatever
//! stood on the key before it, a recorded failure included.
//!
//! Overflow policy: numeric adds wrap (two's-complement modular arithmetic),
//! the same policy in the merge step and in the commit step.  This choice is
//! what keeps the add algebra total and associative; it is held invariant
//! system-wide.

use vstd::prelude::*;
use crate::value::{Value, ValueView};

verus! {

/// Why a merge could not be carried out.
#[derive(Clone, Copy, PartialEq, Eq, Structural, Debug)]
pub enum FailureReason {
    /// The delta's numeric family does not match the value it landed on.
    TypeMismatch,
}

/// Mathematical form of a deferred mutation.
pub enum TransformView {
    Identity,
    Write(ValueView),
    AddInt32(i32),
    AddUInt64(u64),
    Failure(FailureReason),
}

/// A deferred mutation of one slot.
#[derive(Debug)]
pub enum Transform {
    /// The no-op; the zero element of the merge.
    Identity,
    /// Unconditional overwrite.
    Write(Value),
    /// Commutative accumulation on the 32-bit signed family.
    AddInt32(i32),
    /// Commutative accumulation on the 64-bit unsigned family.
    AddUInt64(u64),
    /// A recorded merge failure; it occupies the key so that a conflicting
    /// add is visible, and it makes the commit of its effect map fail,
    /// unless a later write supersedes it.
    Failure(FailureReason),
}

impl View for Transform {
    type V = TransformView;

    open spec fn view(&self) -> TransformView {
        match self {
            Transform::Identity => TransformView::Identity,
            Transform::Write(v) => TransformView::Write(v@),
            Transform::AddInt32(d) => TransformView::AddInt32(*d),
            Transform::AddUInt64(d) => TransformView::AddUInt64(*d),
            Transform::Failure(r) => TransformView::Failure(*r),
        }
    }
}

/// The merge of two deferred mutations of one slot: `later` was generated
/// after `earlier`.  A later write overwrites any prior transform, a
/// recorded failure included (last write wins); otherwise a failure on
/// either side absorbs, the later one first; adds of one family accumulate;
/// an add on a write of the same family folds into the write.
pub open spec fn spec_merge(earlier: TransformView, later: TransformView) -> TransformView {
    match (earlier, later) {
        (_, TransformView::Write(v)) => TransformView::Write(v),
        (_, TransformView::Failure(r)) => TransformView::Failure(r),
        (TransformView::Failure(r), _) => TransformView::Failure(r),
        (a, TransformView::Identity) => a,
        (TransformView::Identity, b) => b,
        (TransformView::Write(v), TransformView::AddInt32(d)) => match v {
            ValueView::Int32(x) => TransformView::Write(
                ValueView::Int32(vstd::wrapping::i32_specs::wrapping_add(x, d)),
            ),
            _ => TransformView::Failure(FailureReason::TypeMismatch),
        },
        (TransformView::Write(v), TransformView::AddUInt64(d)) => match v {
            ValueView::UInt64(x) => TransformView::Write(
                ValueView::UInt64(vstd::wrapping::u64_specs::wrapping_add(x, d)),
            ),
            _ => TransformView::Failure(FailureReason::TypeMismatch),
        },
        (TransformView::AddInt32(a), TransformView::AddInt32(b)) => TransformView::AddInt32(
            vstd::wrapping::i32_specs::wrapping_add(a, b),
        ),
        (TransformView::AddUInt64(a), TransformView::AddUInt64(b)) => TransformView::AddUInt64(
            vstd::wrapping::u64_specs::wrapping_add(a, b),
        ),
        (TransformView::AddInt32(_), TransformView::AddUInt64(_)) => TransformView::Failure(
            FailureReason::TypeMismatch,
        ),
        (TransformView::AddUInt64(_), TransformView::AddInt32(_)) => TransformView::Failure(
            FailureReason::TypeMismatch,
        ),
    }
}

/// Merges a later transform into an earlier one of the same key.
pub fn merge(earlier: Transform, later: Transform) -> (r: Transform)
    ensures
        r@ == spec_merge(earlier@, later@),
{
    match (earlier, later) {
        (_, Transform::Write(v)) => Transform::Write(v),
        (_, Transform::Failure(r)) => Transform::Failure(r),
        (Transform::Failure(r), _) => Transform::Failure(r),
        (a, Transform::Identity) => a,
        (Transform::Identity, b) => b,
        (Transform::Write(v), Transform::AddInt32(d)) => match v {
            Value::Int32(x) => Transform::Write(Value::Int32(x.wrapping_add(d))),
            _ => Transform::Failure(FailureReason::TypeMismatch),
        },
        (Transform::Write(v), Transform::AddUInt64(d)) => match v {
            Value::UInt64(x) => Transform::Write(Value::UInt64(x.wrapping_add(d))),
            _ => Transform::Failure(FailureReason::TypeMismatch),
        },
        (Transform::AddInt32(a), Transform::AddInt32(b)) => Transform::AddInt32(a.wrapping_add(b)),
        (Transform::AddUInt64(a), Transform::AddUInt64(b)) => Transform::AddUInt64(
            a.wrapping_add(b),
        ),
        (Transform::AddInt32(_), Transform::AddUInt64(_)) => Transform::Failure(
            FailureReason::TypeMismatch,
        ),
        (Transform::AddUInt64(_), Transform::AddInt32(_)) => Transform::Failure(
            FailureReason::TypeMismatch,
        ),
    }
}

/// What a transform does to the stored value of its key at commit time.
/// `prev` is the value the snapshot holds, `None` when the key is absent.
/// A numeric add against an absent key is an add against the implicit zero
/// of its family.  `Err(())` marks a malformed transform: applying it must
/// make the whole commit fail.
pub open spec fn spec_apply(t: TransformView, prev: Option<ValueView>) -> Result<
    Option<ValueView>,
    FailureReason,
> {
    match t {
        TransformView::Identity => Ok(prev),
        TransformView::Write(v) => Ok(Some(v)),
        TransformView::AddInt32(d) => match prev {
            None => Ok(Some(ValueView::Int32(d))),
            Some(ValueView::Int32(x)) => Ok(
                Some(ValueView::Int32(vstd::wrapping::i32_specs::wrapping_add(x, d))),
            ),
            Some(_) => Err(FailureReason::TypeMismatch),
        },
        TransformView::AddUInt64(d) => match prev {
            None => Ok(Some(ValueView::UInt64(d))),
            Some(ValueView::UInt64(x)) => Ok(
                Some(ValueView::UInt64(vstd::wrapping::u64_specs::wrapping_add(x, d))),
            ),
            Some(_) => Err(FailureReason::TypeMismatch),
        },
        TransformView::Failure(r) => Err(r),
    }
}

/// Applies a transform to the value a snapshot holds under its key.
pub fn apply(t: &Transform, prev: Option<&Value>) -> (r: Result<Option<Value>, FailureReason>)
    ensures
        match r {
            Ok(Some(v)) => spec_apply(t@, spec_prev(prev)) == Ok::<_, FailureReason>(Some(v@)),
            Ok(None) => spec_apply(t@, spec_prev(prev)) == Ok::<Option<ValueView>, FailureReason>(
                None,
            ),
            Err(e) => spec_apply(t@, spec_prev(prev)) == Err::<Option<ValueView>, _>(e),
        },
{
    match t {
        Transform::Identity => match prev {
            None => Ok(None),
            Some(v) => Ok(Some(crate::value::value_dup(v))),
        },
        Transform::Write(v) => Ok(Some(crate::value::value_dup(v))),
        Transform::AddInt32(d) => match prev {
            None => Ok(Some(Value::Int32(*d))),
            Some(Value::Int32(x)) => Ok(Some(Value::Int32(x.wrapping_add(*d)))),
            Some(_) => Err(FailureReason::TypeMismatch),
        },
        Transform::AddUInt64(d) => match prev {
            None => Ok(Some(Value::UInt64(*d))),
            Some(Value::UInt64(x)) => Ok(Some(Value::UInt64(x.wrapping_add(*d)))),
            Some(_) => Err(FailureReason::TypeMismatch),
        },
        Transform::Failure(r) => Err(*r),
    }
}

/// The view of an optional borrowed value.
pub open spec fn spec_prev(prev: Option<&Value>) -> Option<ValueView> {
    match prev {
        None => None,
        Some(v) => Some(v@),
    }
}

/// Wrapped 32-bit signed addition is associative.
pub proof fn lemma_wrapping_add_i32_associative(a: i32, b: i32, c: i32)
    ensures
        vstd::wrapping::i32_specs::wrapping_add(
            vstd::wrapping::i32_specs::wrapping_add(a, b),
            c,
        ) == vstd::wrapping::i32_specs::wrapping_add(
            a,
            vstd::wrapping::i32_specs::wrapping_add(b, c),
        ),
{
}

/// Wrapped 64-bit unsigned addition is associative.
pub proof fn lemma_wrapping_add_u64_associative(a: u64, b: u64, c: u64)
    ensures
        vstd::wrapping::u64_specs::wrapping_add(
            vstd::wrapping::u64_specs::wrapping_add(a, b),
            c,
        ) == vstd::wrapping::u64_specs::wrapping_add(
            a,
            vstd::wrapping::u64_specs::wrapping_add(b, c),
        ),
{
}

/// The merge is associative: reducing a generation-ordered run of
/// transforms gives the same net transform whatever the grouping.
pub proof fn lemma_merge_associative(a: TransformView, b: TransformView, c: TransformView)
    ensures
        spec_merge(spec_merge(a, b), c) == spec_merge(a, spec_merge(b, c)),
{
    match (a, b, c) {
        (TransformView::AddInt32(x), TransformView::AddInt32(y), TransformView::AddInt32(z)) => {
            lemma_wrapping_add_i32_associative(x, y, z);
        },
        (
            TransformView::AddUInt64(x),
            TransformView::AddUInt64(y),
            TransformView::AddUInt64(z),
        ) => {
            lemma_wrapping_add_u64_associative(x, y, z);
        },
        (
            TransformView::Write(ValueView::Int32(x)),
            TransformView::AddInt32(y),
            TransformView::AddInt32(z),
        ) => {
            lemma_wrapping_add_i32_associative(x, y, z);
        },
        (
            TransformView::Write(ValueView::UInt64(x)),
            TransformView::AddUInt64(y),
            TransformView::AddUInt64(z),
        ) => {
            lemma_wrapping_add_u64_associative(x, y, z);
        },
        (aa, bb, cc) => {
            assert(spec_merge(spec_merge(aa, bb), cc) == spec_merge(aa, spec_merge(bb, cc)));
        },
    }
}

/// `Identity` is the zero element of the merge.
pub proof fn lemma_merge_identity(a: TransformView)
    ensures
        spec_merge(TransformView::Identity, a) == a,
        spec_merge(a, TransformView::Identity) == a,
{
}

/// Merge-reduction is sound for every later transform but a write:
/// committing the merged transform does to the stored value exactly what
/// committing the two transforms one after the other would do.  A later
/// write needs no such coherence — it replaces the slot's value
/// unconditionally, whatever stood before it, even a transform whose own
/// application would have failed.
pub proof fn lemma_merge_apply_coherent(
    a: TransformView,
    b: TransformView,
    prev: Option<ValueView>,
)
    requires
        !(b is Write),
    ensures
        spec_apply(spec_merge(a, b), prev) == (match spec_apply(a, prev) {
            Ok(mid) => spec_apply(b, mid),
            Err(r) => Err(r),
        }),
{
}

/// A write followed by a same-family add folds into one net write; within
/// one execution the two are a single transform, never two.
pub proof fn lemma_write_then_add_folds(x: i32, d: i32)
    ensures
        spec_merge(TransformView::Write(ValueView::Int32(x)), TransformView::AddInt32(d))
            == TransformView::Write(
            ValueView::Int32(vstd::wrapping::i32_specs::wrapping_add(x, d)),
        ),
{
}

} // verus!
