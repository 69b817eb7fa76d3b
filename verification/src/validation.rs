//! Defensive validation state for streamed imaging commands.
//!
//! [`ValidatingSink`] wraps a command sink and keeps the bookkeeping that decides whether a
//! streamed command may be forwarded: the clip and group stack depths, the first validation error
//! seen, and whether a violation hook asked to abort. The per-payload checks (finiteness of
//! transforms, rectangle bounds and the like) report their findings through
//! [`ValidatingSink::violate`].

use vstd::prelude::*;

verus! {

/// Decision returned by a [`ValidatingSink`] violation hook.
#[derive(Copy, Clone, Debug, PartialEq, Eq, Structural)]
pub enum ValidationDecision {
    /// Continue forwarding commands to the wrapped sink.
    Continue,
    /// Abort: stop forwarding commands and record the first validation error.
    Abort,
}

/// A validation error reported by [`ValidatingSink`].
#[derive(Copy, Clone, Debug, PartialEq)]
pub enum ValidationError {
    /// A value that must be finite was NaN or infinite.
    NonFinite {
        /// Short label describing what was invalid.
        what: &'static str,
    },
    /// A rectangle had invalid bounds.
    InvalidRect {
        /// Short label describing what was invalid.
        what: &'static str,
    },
    /// A rounded rectangle had invalid radii.
    InvalidRoundedRect {
        /// Short label describing what was invalid.
        what: &'static str,
    },
    /// A composite alpha was not finite or outside `0..=1`.
    InvalidAlpha,
    /// A stroke style had invalid parameters.
    InvalidStroke,
    /// A filter had invalid parameters.
    InvalidFilter,
    /// A paint payload had invalid parameters.
    InvalidPaint {
        /// Short label describing what was invalid.
        what: &'static str,
    },
    /// A glyph run had invalid parameters.
    InvalidGlyphRun {
        /// Short label describing what was invalid.
        what: &'static str,
    },
    /// A blurred rounded rect had invalid parameters.
    InvalidBlurredRoundedRect {
        /// Short label describing what was invalid.
        what: &'static str,
    },
    /// A stack pop occurred without a corresponding push.
    StackUnderflow {
        /// Which stack underflowed.
        what: &'static str,
    },
    /// The command stream ended with open clips.
    UnclosedClips {
        /// Remaining clip depth.
        depth: u32,
    },
    /// The command stream ended with open groups.
    UnclosedGroups {
        /// Remaining group depth.
        depth: u32,
    },
}

/// Default violation hook for [`ValidatingSink`]: abort on the first error.
pub fn default_validation_hook(_err: &ValidationError) -> (r: ValidationDecision)
    ensures
        r == ValidationDecision::Abort,
{
    ValidationDecision::Abort
}

/// Something that decides what a [`ValidatingSink`] does after a validation error.
///
/// Every `FnMut(&ValidationError) -> ValidationDecision` closure is a hook, and so is
/// [`DefaultValidationHook`].
pub trait ValidationHook: Sized {
    /// The hook may be called with any error.
    spec fn ready(&self) -> bool;

    /// `d` is a decision that this hook, in this state, may give for `err`.
    spec fn gives(&self, err: ValidationError, d: ValidationDecision) -> bool;

    /// Decide whether to continue after `err`.
    fn decide(&mut self, err: &ValidationError) -> (d: ValidationDecision)
        requires
            old(self).ready(),
        ensures
            final(self).ready(),
            old(self).gives(*err, d),
    ;
}

/// The hook used by [`ValidatingSink::new`]: it behaves as [`default_validation_hook`].
#[derive(Copy, Clone, Debug, Default)]
pub struct DefaultValidationHook;

impl ValidationHook for DefaultValidationHook {
    open spec fn ready(&self) -> bool {
        true
    }

    open spec fn gives(&self, err: ValidationError, d: ValidationDecision) -> bool {
        d == ValidationDecision::Abort
    }

    fn decide(&mut self, err: &ValidationError) -> (d: ValidationDecision) {
        default_validation_hook(err)
    }
}

impl<F: FnMut(&ValidationError) -> ValidationDecision> ValidationHook for F {
    open spec fn ready(&self) -> bool {
        forall|err: &ValidationError| call_requires(*self, (err,))
    }

    open spec fn gives(&self, err: ValidationError, d: ValidationDecision) -> bool {
        call_ensures(*self, (&err,), d)
    }

    fn decide(&mut self, err: &ValidationError) -> (d: ValidationDecision) {
        (self)(err)
    }
}

/// A wrapper around a command sink that validates inputs before forwarding them.
///
/// This keeps the stack depths of forwarded pushes, the first validation error and whether the
/// hook asked to abort; once aborted, nothing more is forwarded.
#[derive(Debug)]
pub struct ValidatingSink<S, H = DefaultValidationHook> {
    inner: S,
    hook: H,
    first_error: Option<ValidationError>,
    aborted: bool,
    clip_depth: u32,
    group_depth: u32,
}

impl<S> ValidatingSink<S> {
    /// Wrap a sink using the default hook (abort on first error).
    pub fn new(inner: S) -> (r: Self)
        ensures
            r.inner_view() == inner,
            r.first_error_view() is None,
            !r.aborted_view(),
            r.clip_depth_view() == 0,
            r.group_depth_view() == 0,
            r.hook_ready(),
    {
        Self::from_parts(inner, DefaultValidationHook)
    }
}

impl<S, F: FnMut(&ValidationError) -> ValidationDecision> ValidatingSink<S, F> {
    /// Wrap a sink with a custom validation hook: a closure that may be called with any error.
    pub fn with_hook(inner: S, hook: F) -> (r: Self)
        requires
            forall|err: &ValidationError| call_requires(hook, (err,)),
        ensures
            r.inner_view() == inner,
            r.hook_view() == hook,
            r.first_error_view() is None,
            !r.aborted_view(),
            r.clip_depth_view() == 0,
            r.group_depth_view() == 0,
            r.hook_ready(),
    {
        Self::from_parts(inner, hook)
    }
}

impl<S, H: ValidationHook> ValidatingSink<S, H> {
    /// The wrapped sink.
    pub closed spec fn inner_view(self) -> S {
        self.inner
    }

    /// The violation hook.
    pub closed spec fn hook_view(self) -> H {
        self.hook
    }

    /// The first validation error seen, if any.
    pub closed spec fn first_error_view(self) -> Option<ValidationError> {
        self.first_error
    }

    /// Whether the hook asked to abort; from then on nothing is forwarded.
    pub closed spec fn aborted_view(self) -> bool {
        self.aborted
    }

    /// Number of forwarded clip pushes not yet matched by a forwarded pop.
    pub closed spec fn clip_depth_view(self) -> u32 {
        self.clip_depth
    }

    /// Number of forwarded group pushes not yet matched by a forwarded pop.
    pub closed spec fn group_depth_view(self) -> u32 {
        self.group_depth
    }

    /// The hook may be called with any error.
    pub closed spec fn hook_ready(self) -> bool {
        self.hook.ready()
    }

    /// Wrap a sink with a hook that may be called with any error.
    fn from_parts(inner: S, hook: H) -> (r: Self)
        requires
            hook.ready(),
        ensures
            r.inner_view() == inner,
            r.hook_view() == hook,
            r.first_error_view() is None,
            !r.aborted_view(),
            r.clip_depth_view() == 0,
            r.group_depth_view() == 0,
            r.hook_ready(),
    {
        ValidatingSink {
            inner,
            hook,
            first_error: None,
            aborted: false,
            clip_depth: 0,
            group_depth: 0,
        }
    }

    /// Borrow the wrapped sink.
    pub fn inner(&self) -> (r: &S)
        ensures
            *r == self.inner_view(),
    {
        &self.inner
    }

    /// Mutably borrow the wrapped sink.
    pub fn inner_mut(&mut self) -> (r: &mut S)
        ensures
            final(self).hook_ready() == old(self).hook_ready(),
            *r == old(self).inner_view(),
            final(self).inner_view() == *final(r),
            final(self).hook_view() == old(self).hook_view(),
            final(self).first_error_view() == old(self).first_error_view(),
            final(self).aborted_view() == old(self).aborted_view(),
            final(self).clip_depth_view() == old(self).clip_depth_view(),
            final(self).group_depth_view() == old(self).group_depth_view(),
    {
        &mut self.inner
    }

    /// Return the first validation error, if any.
    pub fn first_error(&self) -> (r: Option<&ValidationError>)
        ensures
            match r {
                Some(e) => self.first_error_view() == Some(*e),
                None => self.first_error_view() is None,
            },
    {
        self.first_error.as_ref()
    }

    /// Number of forwarded clip pushes not yet matched by a forwarded pop.
    pub fn clip_depth(&self) -> (r: u32)
        ensures
            r == self.clip_depth_view(),
    {
        self.clip_depth
    }

    /// Number of forwarded group pushes not yet matched by a forwarded pop.
    pub fn group_depth(&self) -> (r: u32)
        ensures
            r == self.group_depth_view(),
    {
        self.group_depth
    }

    /// Whether the hook asked to abort.
    pub fn is_aborted(&self) -> (r: bool)
        ensures
            r == self.aborted_view(),
    {
        self.aborted
    }

    /// Unwrap the sink, returning the inner sink and the first validation error (if any).
    pub fn into_inner(self) -> (r: (S, Option<ValidationError>))
        ensures
            r.0 == self.inner_view(),
            r.1 == self.first_error_view(),
    {
        (self.inner, self.first_error)
    }

    /// Validate that streaming push/pop stacks are balanced at end-of-stream.
    ///
    /// Open clips are reported before open groups; the reported error is also noted as the first
    /// error when none was seen before.
    pub fn finish(&mut self) -> (r: Result<(), ValidationError>)
        ensures
            final(self).hook_ready() == old(self).hook_ready(),
            r == (if old(self).clip_depth_view() != 0 {
                Err(ValidationError::UnclosedClips { depth: old(self).clip_depth_view() })
            } else if old(self).group_depth_view() != 0 {
                Err(ValidationError::UnclosedGroups { depth: old(self).group_depth_view() })
            } else {
                Ok(())
            }),
            final(self).first_error_view() == (match r {
                Err(e) => crate::stream::error_after(old(self).first_error_view(), e),
                Ok(()) => old(self).first_error_view(),
            }),
            final(self).inner_view() == old(self).inner_view(),
            final(self).hook_view() == old(self).hook_view(),
            final(self).aborted_view() == old(self).aborted_view(),
            final(self).clip_depth_view() == old(self).clip_depth_view(),
            final(self).group_depth_view() == old(self).group_depth_view(),
    {
        if self.clip_depth != 0 {
            let err = ValidationError::UnclosedClips { depth: self.clip_depth };
            self.note_error(err);
            return Err(err);
        }
        if self.group_depth != 0 {
            let err = ValidationError::UnclosedGroups { depth: self.group_depth };
            self.note_error(err);
            return Err(err);
        }
        Ok(())
    }

    fn note_error(&mut self, err: ValidationError)
        ensures
            final(self).hook_ready() == old(self).hook_ready(),
            final(self).first_error_view() == crate::stream::error_after(old(self).first_error_view(), err),
            final(self).inner_view() == old(self).inner_view(),
            final(self).hook_view() == old(self).hook_view(),
            final(self).aborted_view() == old(self).aborted_view(),
            final(self).clip_depth_view() == old(self).clip_depth_view(),
            final(self).group_depth_view() == old(self).group_depth_view(),
    {
        if self.first_error.is_none() {
            self.first_error = Some(err);
        }
    }

    /// Report a validation error: note it as the first error if none was seen, and ask the hook
    /// what to do. Returns `true` when the hook decided to abort.
    pub fn violate(&mut self, err: ValidationError) -> (r: bool)
        requires
            old(self).hook_ready(),
        ensures
            final(self).hook_ready(),
            old(self).hook_view().gives(
                err,
                if r {
                    ValidationDecision::Abort
                } else {
                    ValidationDecision::Continue
                },
            ),
            final(self).aborted_view() == (old(self).aborted_view() || r),
            final(self).first_error_view() == crate::stream::error_after(old(self).first_error_view(), err),
            final(self).inner_view() == old(self).inner_view(),
            final(self).clip_depth_view() == old(self).clip_depth_view(),
            final(self).group_depth_view() == old(self).group_depth_view(),
    {
        self.note_error(err);
        match self.hook.decide(&err) {
            ValidationDecision::Continue => false,
            ValidationDecision::Abort => {
                self.aborted = true;
                true
            },
        }
    }

    /// Record that a validated clip push is forwarded. Returns `false` (and records nothing)
    /// once aborted.
    pub fn accept_push_clip(&mut self) -> (r: bool)
        requires
            old(self).aborted_view() || old(self).clip_depth_view() < u32::MAX,
        ensures
            final(self).hook_ready() == old(self).hook_ready(),
            r == !old(self).aborted_view(),
            final(self).clip_depth_view() == if r {
                old(self).clip_depth_view() + 1
            } else {
                old(self).clip_depth_view() as int
            },
            final(self).first_error_view() == old(self).first_error_view(),
            final(self).aborted_view() == old(self).aborted_view(),
            final(self).inner_view() == old(self).inner_view(),
            final(self).hook_view() == old(self).hook_view(),
            final(self).group_depth_view() == old(self).group_depth_view(),
    {
        if self.aborted {
            return false;
        }
        self.clip_depth += 1;
        true
    }

    /// Record that a validated group push is forwarded. Returns `false` (and records nothing)
    /// once aborted.
    pub fn accept_push_group(&mut self) -> (r: bool)
        requires
            old(self).aborted_view() || old(self).group_depth_view() < u32::MAX,
        ensures
            final(self).hook_ready() == old(self).hook_ready(),
            r == !old(self).aborted_view(),
            final(self).group_depth_view() == if r {
                old(self).group_depth_view() + 1
            } else {
                old(self).group_depth_view() as int
            },
            final(self).first_error_view() == old(self).first_error_view(),
            final(self).aborted_view() == old(self).aborted_view(),
            final(self).inner_view() == old(self).inner_view(),
            final(self).hook_view() == old(self).hook_view(),
            final(self).clip_depth_view() == old(self).clip_depth_view(),
    {
        if self.aborted {
            return false;
        }
        self.group_depth += 1;
        true
    }

    /// Decide whether a clip pop may be forwarded.
    ///
    /// Nothing is forwarded once aborted. A pop with no open clip is reported as
    /// [`ValidationError::StackUnderflow`] and not forwarded; otherwise the depth drops by one.
    pub fn accept_pop_clip(&mut self) -> (r: bool)
        requires
            old(self).hook_ready(),
        ensures
            final(self).hook_ready(),
            r == (!old(self).aborted_view() && old(self).clip_depth_view() > 0),
            r ==> final(self).clip_depth_view() == old(self).clip_depth_view() - 1,
            !r ==> final(self).clip_depth_view() == old(self).clip_depth_view(),
            old(self).aborted_view() ==> *final(self) == *old(self),
            !old(self).aborted_view() && old(self).clip_depth_view() == 0 ==> {
                &&& final(self).first_error_view() == crate::stream::error_after(
                    old(self).first_error_view(),
                    ValidationError::StackUnderflow { what: "clip" },
                )
                &&& exists|d: ValidationDecision|
                    #![trigger old(self).hook_view().gives(ValidationError::StackUnderflow { what: "clip" }, d)]
                    old(self).hook_view().gives(ValidationError::StackUnderflow { what: "clip" }, d)
                        && final(self).aborted_view() == (d == ValidationDecision::Abort)
            },
            r ==> final(self).first_error_view() == old(self).first_error_view(),
            r ==> final(self).aborted_view() == old(self).aborted_view(),
            final(self).inner_view() == old(self).inner_view(),
            final(self).group_depth_view() == old(self).group_depth_view(),
    {
        if self.aborted {
            return false;
        }
        if self.clip_depth == 0 {
            let _ = self.violate(ValidationError::StackUnderflow { what: "clip" });
            return false;
        }
        self.clip_depth -= 1;
        true
    }

    /// Decide whether a group pop may be forwarded.
    ///
    /// Nothing is forwarded once aborted. A pop with no open group is reported as
    /// [`ValidationError::StackUnderflow`] and not forwarded; otherwise the depth drops by one.
    pub fn accept_pop_group(&mut self) -> (r: bool)
        requires
            old(self).hook_ready(),
        ensures
            final(self).hook_ready(),
            r == (!old(self).aborted_view() && old(self).group_depth_view() > 0),
            r ==> final(self).group_depth_view() == old(self).group_depth_view() - 1,
            !r ==> final(self).group_depth_view() == old(self).group_depth_view(),
            old(self).aborted_view() ==> *final(self) == *old(self),
            !old(self).aborted_view() && old(self).group_depth_view() == 0 ==> {
                &&& final(self).first_error_view() == crate::stream::error_after(
                    old(self).first_error_view(),
                    ValidationError::StackUnderflow { what: "group" },
                )
                &&& exists|d: ValidationDecision|
                    #![trigger old(self).hook_view().gives(ValidationError::StackUnderflow { what: "group" }, d)]
                    old(self).hook_view().gives(ValidationError::StackUnderflow { what: "group" }, d)
                        && final(self).aborted_view() == (d == ValidationDecision::Abort)
            },
            r ==> final(self).first_error_view() == old(self).first_error_view(),
            r ==> final(self).aborted_view() == old(self).aborted_view(),
            final(self).inner_view() == old(self).inner_view(),
            final(self).clip_depth_view() == old(self).clip_depth_view(),
    {
        if self.aborted {
            return false;
        }
        if self.group_depth == 0 {
            let _ = self.violate(ValidationError::StackUnderflow { what: "group" });
            return false;
        }
        self.group_depth -= 1;
        true
    }
}


/// Law: the first validation error is kept. Noting the errors `later` in turn, as
/// [`ValidatingSink::violate`], the pop checks and [`ValidatingSink::finish`] do, leaves an error
/// noted before them in place, and otherwise records the first of them.
pub proof fn law_first_error_is_kept(first: Option<ValidationError>, later: Seq<ValidationError>)
    ensures
        crate::stream::errors_after(first, later) == (if first is Some {
            first
        } else if later.len() > 0 {
            Some(later[0])
        } else {
            None
        }),
{
    crate::stream::law_first_recorded_error_wins(first, later);
}

/// Pixel formats of images, from `peniko`.
#[verifier::external_type_specification]
#[verifier::external_body]
pub struct ExImageFormat(peniko::ImageFormat);

/// `peniko::ImageFormat::size_in_bytes`: the bytes that a `width` by `height` image takes. Every
/// format of this `peniko` version has four bytes per pixel; the count is `4 * width`, then
/// times `height`, each product checked, and `None` when one overflows `usize`.
#[verifier::external_body]
pub(crate) fn image_size_in_bytes(format: peniko::ImageFormat, width: u32, height: u32) -> (r: Option<usize>)
    ensures
        r == (if 4 * width > usize::MAX || 4 * width * height > usize::MAX {
            None
        } else {
            Some((4 * width * height) as usize)
        }),
{
    format.size_in_bytes(width, height)
}

/// Whether an image's pixel data has the length its format and size call for: the byte count
/// of a `width` by `height` image must not overflow and must equal `data_len`.
pub fn image_data_len_ok(format: peniko::ImageFormat, width: u32, height: u32, data_len: usize) -> (r: bool)
    ensures
        r == (4 * width <= usize::MAX && 4 * width * height <= usize::MAX && data_len == 4 * width
            * height),
{
    match image_size_in_bytes(format, width, height) {
        Some(expected) => expected == data_len,
        None => false,
    }
}

/// One call of a [`ValidatingSink`] takes its first error from `before` to `after`: it leaves it
/// as it was, or notes one more error (which only counts when none was noted before).
pub open spec fn first_error_step(before: Option<ValidationError>, after: Option<ValidationError>) -> bool {
    after == before || exists|e: ValidationError| after == crate::stream::error_after(before, e)
}

/// Law: over a run of calls on a [`ValidatingSink`] (`states` holds the sink before the first
/// call and after each one, every call a step as its contract states), an error once noted is
/// the one reported at the end: later errors never replace it, and the end reports none only if
/// no state had one.
pub proof fn law_first_error_over_calls<S, H: ValidationHook>(states: Seq<ValidatingSink<S, H>>, i: int)
    requires
        0 <= i < states.len(),
        forall|k: int|
            0 <= k < states.len() - 1 ==> #[trigger] first_error_step(
                states[k].first_error_view(),
                states[k + 1].first_error_view(),
            ),
    ensures
        states[i].first_error_view() is Some ==> states.last().first_error_view()
            == states[i].first_error_view(),
        states.last().first_error_view() is None ==> states[i].first_error_view() is None,
    decreases states.len() - i,
{
    if i < states.len() - 1 {
        law_first_error_over_calls(states, i + 1);
        assert(first_error_step(states[i].first_error_view(), states[i + 1].first_error_view()));
    }
}

} // verus!
